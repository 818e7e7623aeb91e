//! What the terminal sends to the program in it: keys, the mouse and pastes.

use crate::text::{chars_of, decimal, push_decimal};
use vstd::prelude::*;
use vstd::utf8::{encode_scalar, encode_utf8};

verus! {

/// A key of the keyboard.
#[derive(Clone, Copy, Debug, PartialEq, Eq, Structural)]
pub enum Key {
    A,
    B,
    C,
    D,
    E,
    F,
    G,
    H,
    I,
    J,
    K,
    L,
    M,
    N,
    O,
    P,
    Q,
    R,
    S,
    T,
    U,
    V,
    W,
    X,
    Y,
    Z,
    Num0,
    Num1,
    Num2,
    Num3,
    Num4,
    Num5,
    Num6,
    Num7,
    Num8,
    Num9,
    F1,
    F2,
    F3,
    F4,
    F5,
    F6,
    F7,
    F8,
    F9,
    F10,
    F11,
    F12,
    ArrowUp,
    ArrowDown,
    ArrowRight,
    ArrowLeft,
    Home,
    End,
    Insert,
    Delete,
    PageUp,
    PageDown,
    Enter,
    Backspace,
    Escape,
    Tab,
    Space,
    OpenBracket,
    CloseBracket,
    Backslash,
    Plus,
    Equals,
    Minus,
    Comma,
    Other,
}

/// The modifier keys that are held down. `command` is the key for shortcuts:
/// Control, or Command on a Mac.
#[derive(Clone, Copy, Debug, PartialEq, Eq, Structural)]
pub struct Modifiers {
    pub alt: bool,
    pub ctrl: bool,
    pub shift: bool,
    pub command: bool,
}

impl Modifiers {
    /// No modifier.
    pub fn none() -> (mods: Modifiers)
        ensures
            !mods.alt && !mods.ctrl && !mods.shift && !mods.command,
    {
        Modifiers { alt: false, ctrl: false, shift: false, command: false }
    }

    /// Control alone.
    pub fn control() -> (mods: Modifiers)
        ensures
            !mods.alt && mods.ctrl && !mods.shift && !mods.command,
    {
        Modifiers { alt: false, ctrl: true, shift: false, command: false }
    }
}

/// What an input method reports.
#[derive(Debug)]
pub enum ImeEvent {
    /// It is in use.
    Enabled,
    /// A text is being composed.
    Preedit(String),
    /// A text was composed.
    Commit(String),
    /// It is not in use any more.
    Disabled,
}

/// What the user did.
#[derive(Debug)]
pub enum InputEvent {
    /// A key was pressed, or let go.
    Key { key: Key, pressed: bool, mods: Modifiers },
    /// A text was typed.
    Text(String),
    /// The input method reports something.
    Ime(ImeEvent),
    /// Anything else.
    Other,
}

/// How mouse reports are written.
#[derive(Clone, Copy, Debug, PartialEq, Eq, Structural)]
pub enum MouseProtocolEncoding {
    /// One byte for each number.
    Default,
    /// Each coordinate as a UTF-8 character.
    Utf8,
    /// Decimal numbers.
    Sgr,
}

/// What the modifiers add to the button of a mouse report.
pub open spec fn mouse_flags(mods: Modifiers) -> int {
    (if mods.shift {
        4int
    } else {
        0
    }) + (if mods.alt {
        8int
    } else {
        0
    }) + (if mods.ctrl {
        16int
    } else {
        0
    })
}

/// A coordinate of a mouse report that is not in decimal: counted from one,
/// 32 more, and cut off at the largest that the encoding can carry.
pub open spec fn mouse_coordinate(at: u16, encoding: MouseProtocolEncoding) -> Seq<u8> {
    if encoding == MouseProtocolEncoding::Utf8 {
        encode_scalar(
            (if at + 33 <= 2047 {
                at + 33
            } else {
                2047
            }) as u32,
        )
    } else {
        seq![
            (if at <= 222 {
                at + 33
            } else {
                255
            }) as u8,
        ]
    }
}

/// A mouse report.
pub open spec fn mouse_report(
    button: u8,
    col: u16,
    row: u16,
    release: bool,
    mods: Modifiers,
    encoding: MouseProtocolEncoding,
) -> Seq<u8> {
    let flags = mouse_flags(mods);
    if encoding == MouseProtocolEncoding::Sgr {
        encode_utf8(
            "\x1b[<"@ + decimal((button + flags) as nat) + ";"@ + decimal((col + 1) as nat) + ";"@
                + decimal((row + 1) as nat) + (if release {
                "m"@
            } else {
                "M"@
            }),
        )
    } else {
        let code = 32 + (if release {
            3
        } else {
            button as int
        }) + flags;
        seq![27u8, 91u8, 77u8, code as u8] + mouse_coordinate(col, encoding) + mouse_coordinate(
            row,
            encoding,
        )
    }
}

/// The UTF-8 bytes of a text.
fn bytes_of(s: &str) -> (out: Vec<u8>)
    ensures
        out@ == encode_utf8(s@),
{
    let mut out: Vec<u8> = Vec::new();
    out.extend_from_slice(s.as_bytes());
    assert(out@ =~= encode_utf8(s@));
    out
}

proof fn lemma_narrow_scalar(v: u32)
    by (bit_vector)
    requires
        v < 0x800,
    ensures
        v < 0x80 ==> (v & 0x7F) as u8 == v as u8,
        v >= 0x80 ==> 0xC0u8 | ((v >> 6) & 0x1F) as u8 == (0xC0 + v / 64) as u8,
        v >= 0x80 ==> 0x80u8 | (v & 0x3F) as u8 == (0x80 + v % 64) as u8,
        v >= 0x80 ==> v / 64 < 32,
{
}

/// Appends a coordinate of a mouse report.
fn push_coordinate(out: &mut Vec<u8>, at: u16, encoding: MouseProtocolEncoding)
    requires
        encoding != MouseProtocolEncoding::Sgr,
    ensures
        final(out)@ == old(out)@ + mouse_coordinate(at, encoding),
{
    if encoding == MouseProtocolEncoding::Utf8 {
        let v: u32 = if at <= 2014 {
            at as u32 + 33
        } else {
            2047
        };
        proof {
            lemma_narrow_scalar(v);
        }
        if v < 128 {
            out.push(v as u8);
        } else {
            out.push((192 + v / 64) as u8);
            out.push((128 + v % 64) as u8);
        }
        assert(out@ =~= old(out)@ + encode_scalar(v));
    } else {
        let v: u8 = if at <= 222 {
            (at + 33) as u8
        } else {
            255
        };
        out.push(v);
        assert(out@ =~= old(out)@ + seq![v]);
    }
}

/// The report of a mouse button that was pressed or released over a cell.
pub fn encode_mouse(
    button: u8,
    col: u16,
    row: u16,
    release: bool,
    mods: Modifiers,
    encoding: MouseProtocolEncoding,
) -> (out: Vec<u8>)
    requires
        encoding == MouseProtocolEncoding::Sgr ==> button + mouse_flags(mods) <= 255,
        encoding != MouseProtocolEncoding::Sgr && !release ==> 32 + button + mouse_flags(mods)
            <= 255,
    ensures
        out@ == mouse_report(button, col, row, release, mods, encoding),
{
    let mut flags: u8 = 0;
    if mods.shift {
        flags += 4;
    }
    if mods.alt {
        flags += 8;
    }
    if mods.ctrl {
        flags += 16;
    }
    if encoding == MouseProtocolEncoding::Sgr {
        let mut text = String::new();
        text.append("\x1b[<");
        push_decimal(&mut text, (button + flags) as u64);
        text.append(";");
        push_decimal(&mut text, col as u64 + 1);
        text.append(";");
        push_decimal(&mut text, row as u64 + 1);
        text.append(
            if release {
                "m"
            } else {
                "M"
            },
        );
        proof {
            let flags = mouse_flags(mods);
            assert(text@ =~= "\x1b[<"@ + decimal((button + flags) as nat) + ";"@ + decimal(
                (col + 1) as nat,
            ) + ";"@ + decimal((row + 1) as nat) + (if release {
                "m"@
            } else {
                "M"@
            }));
        }
        return bytes_of(text.as_str());
    }
    let mut out: Vec<u8> = Vec::new();
    out.push(27);
    out.push(91);
    out.push(77);
    out.push(
        32 + (if release {
            3 + flags
        } else {
            button + flags
        }),
    );
    push_coordinate(&mut out, col, encoding);
    push_coordinate(&mut out, row, encoding);
    assert(out@ =~= mouse_report(button, col, row, release, mods, encoding));
    out
}

/// The control character of a key held with Control.
pub open spec fn control_code(key: Key) -> Option<u8> {
    match key {
        Key::A => Some(1),
        Key::B => Some(2),
        Key::C => Some(3),
        Key::D => Some(4),
        Key::E => Some(5),
        Key::F => Some(6),
        Key::G => Some(7),
        Key::H => Some(8),
        Key::I => Some(9),
        Key::J => Some(10),
        Key::K => Some(11),
        Key::L => Some(12),
        Key::M => Some(13),
        Key::N => Some(14),
        Key::O => Some(15),
        Key::P => Some(16),
        Key::Q => Some(17),
        Key::R => Some(18),
        Key::S => Some(19),
        Key::T => Some(20),
        Key::U => Some(21),
        Key::V => Some(22),
        Key::W => Some(23),
        Key::X => Some(24),
        Key::Y => Some(25),
        Key::Z => Some(26),
        Key::OpenBracket => Some(27),
        Key::Backslash => Some(28),
        Key::CloseBracket => Some(29),
        Key::Space => Some(0),
        _ => None,
    }
}

/// The final letter of the sequence for a cursor key.
pub open spec fn cursor_letter(key: Key) -> Option<char> {
    match key {
        Key::ArrowUp => Some('A'),
        Key::ArrowDown => Some('B'),
        Key::ArrowRight => Some('C'),
        Key::ArrowLeft => Some('D'),
        Key::Home => Some('H'),
        Key::End => Some('F'),
        _ => None,
    }
}

/// The number in the sequence of a key whose sequence ends in a tilde.
pub open spec fn tilde_number(key: Key) -> Option<u8> {
    match key {
        Key::Insert => Some(2),
        Key::Delete => Some(3),
        Key::PageUp => Some(5),
        Key::PageDown => Some(6),
        Key::F5 => Some(15),
        Key::F6 => Some(17),
        Key::F7 => Some(18),
        Key::F8 => Some(19),
        Key::F9 => Some(20),
        Key::F10 => Some(21),
        Key::F11 => Some(23),
        Key::F12 => Some(24),
        _ => None,
    }
}

/// What a key sends that no modifier but Shift changes; Alt adds an escape
/// before it.
pub open spec fn fixed_sequence(key: Key, shift: bool) -> Option<Seq<char>> {
    match key {
        Key::Enter => Some("\r"@),
        Key::Backspace => Some("\x7f"@),
        Key::Escape => Some("\x1b"@),
        Key::Tab => Some(
            if shift {
                "\x1b[Z"@
            } else {
                "\t"@
            },
        ),
        Key::F1 => Some("\x1bOP"@),
        Key::F2 => Some("\x1bOQ"@),
        Key::F3 => Some("\x1bOR"@),
        Key::F4 => Some("\x1bOS"@),
        _ => None,
    }
}

/// The number by which a sequence tells the modifiers: one for none.
pub open spec fn modifier_number(mods: Modifiers) -> nat {
    ((if mods.shift {
        2int
    } else {
        1
    }) + (if mods.alt {
        2int
    } else {
        0
    }) + (if mods.ctrl {
        4int
    } else {
        0
    })) as nat
}

/// What a key sends; none where it sends nothing but the text it types.
pub open spec fn key_sequence(key: Key, mods: Modifiers, application_cursor: bool) -> Option<
    Seq<u8>,
> {
    let modifier = modifier_number(mods);
    if mods.ctrl && !mods.alt && control_code(key) is Some {
        Some(seq![control_code(key)->0])
    } else if let Some(end) = cursor_letter(key) {
        Some(
            encode_utf8(
                if modifier > 1 {
                    "\x1b[1;"@ + decimal(modifier) + seq![end]
                } else if application_cursor {
                    "\x1bO"@ + seq![end]
                } else {
                    "\x1b["@ + seq![end]
                },
            ),
        )
    } else if let Some(n) = tilde_number(key) {
        Some(
            encode_utf8(
                if modifier > 1 {
                    "\x1b["@ + decimal(n as nat) + ";"@ + decimal(modifier) + "~"@
                } else {
                    "\x1b["@ + decimal(n as nat) + "~"@
                },
            ),
        )
    } else if let Some(sequence) = fixed_sequence(key, mods.shift) {
        Some(
            if mods.alt {
                seq![27u8] + encode_utf8(sequence)
            } else {
                encode_utf8(sequence)
            },
        )
    } else {
        None
    }
}

fn find_control_code(key: Key) -> (out: Option<u8>)
    ensures
        out == control_code(key),
{
    match key {
        Key::A => Some(1),
        Key::B => Some(2),
        Key::C => Some(3),
        Key::D => Some(4),
        Key::E => Some(5),
        Key::F => Some(6),
        Key::G => Some(7),
        Key::H => Some(8),
        Key::I => Some(9),
        Key::J => Some(10),
        Key::K => Some(11),
        Key::L => Some(12),
        Key::M => Some(13),
        Key::N => Some(14),
        Key::O => Some(15),
        Key::P => Some(16),
        Key::Q => Some(17),
        Key::R => Some(18),
        Key::S => Some(19),
        Key::T => Some(20),
        Key::U => Some(21),
        Key::V => Some(22),
        Key::W => Some(23),
        Key::X => Some(24),
        Key::Y => Some(25),
        Key::Z => Some(26),
        Key::OpenBracket => Some(27),
        Key::Backslash => Some(28),
        Key::CloseBracket => Some(29),
        Key::Space => Some(0),
        _ => None,
    }
}

fn find_cursor_letter(key: Key) -> (out: Option<char>)
    ensures
        out == cursor_letter(key),
{
    match key {
        Key::ArrowUp => Some('A'),
        Key::ArrowDown => Some('B'),
        Key::ArrowRight => Some('C'),
        Key::ArrowLeft => Some('D'),
        Key::Home => Some('H'),
        Key::End => Some('F'),
        _ => None,
    }
}

fn find_tilde_number(key: Key) -> (out: Option<u8>)
    ensures
        out == tilde_number(key),
{
    match key {
        Key::Insert => Some(2),
        Key::Delete => Some(3),
        Key::PageUp => Some(5),
        Key::PageDown => Some(6),
        Key::F5 => Some(15),
        Key::F6 => Some(17),
        Key::F7 => Some(18),
        Key::F8 => Some(19),
        Key::F9 => Some(20),
        Key::F10 => Some(21),
        Key::F11 => Some(23),
        Key::F12 => Some(24),
        _ => None,
    }
}

/// What a key sends to the program in the terminal.
pub fn encode_key(key: Key, mods: Modifiers, application_cursor: bool) -> (out: Option<Vec<u8>>)
    ensures
        match out {
            Some(bytes) => key_sequence(key, mods, application_cursor) == Some(bytes@),
            None => key_sequence(key, mods, application_cursor) is None,
        },
{
    if mods.ctrl && !mods.alt {
        if let Some(code) = find_control_code(key) {
            let mut bytes: Vec<u8> = Vec::new();
            bytes.push(code);
            assert(bytes@ =~= seq![code]);
            return Some(bytes);
        }
    }
    let mut modifier: u64 = 1;
    if mods.shift {
        modifier += 1;
    }
    if mods.alt {
        modifier += 2;
    }
    if mods.ctrl {
        modifier += 4;
    }
    let mut text = String::new();
    if let Some(end) = find_cursor_letter(key) {
        if modifier > 1 {
            text.append("\x1b[1;");
            push_decimal(&mut text, modifier);
            text.push(end);
            assert(text@ =~= "\x1b[1;"@ + decimal(modifier as nat) + seq![end]);
        } else if application_cursor {
            text.append("\x1bO");
            text.push(end);
            assert(text@ =~= "\x1bO"@ + seq![end]);
        } else {
            text.append("\x1b[");
            text.push(end);
            assert(text@ =~= "\x1b["@ + seq![end]);
        }
        return Some(bytes_of(text.as_str()));
    }
    if let Some(n) = find_tilde_number(key) {
        text.append("\x1b[");
        push_decimal(&mut text, n as u64);
        if modifier > 1 {
            text.append(";");
            push_decimal(&mut text, modifier);
            text.append("~");
            assert(text@ =~= "\x1b["@ + decimal(n as nat) + ";"@ + decimal(modifier as nat)
                + "~"@);
        } else {
            text.append("~");
            assert(text@ =~= "\x1b["@ + decimal(n as nat) + "~"@);
        }
        return Some(bytes_of(text.as_str()));
    }
    let sequence: &str = match key {
        Key::Enter => "\r",
        Key::Backspace => "\x7f",
        Key::Escape => "\x1b",
        Key::Tab => if mods.shift {
            "\x1b[Z"
        } else {
            "\t"
        },
        Key::F1 => "\x1bOP",
        Key::F2 => "\x1bOQ",
        Key::F3 => "\x1bOR",
        Key::F4 => "\x1bOS",
        _ => return None,
    };
    let mut bytes: Vec<u8> = Vec::new();
    if mods.alt {
        bytes.push(27);
    }
    bytes.extend_from_slice(sequence.as_bytes());
    proof {
        if mods.alt {
            assert(bytes@ =~= seq![27u8] + encode_utf8(sequence@));
        } else {
            assert(bytes@ =~= encode_utf8(sequence@));
        }
    }
    Some(bytes)
}

/// The text without its escape characters.
pub open spec fn without_escapes(s: Seq<char>) -> Seq<char>
    decreases s.len(),
{
    if s.len() == 0 {
        Seq::empty()
    } else if s.last() == '\x1b' {
        without_escapes(s.drop_last())
    } else {
        without_escapes(s.drop_last()).push(s.last())
    }
}

/// The text with every line ending, of either of the other two kinds, made a
/// line feed.
pub open spec fn unix_lines(s: Seq<char>) -> Seq<char>
    decreases s.len(),
{
    if s.len() == 0 {
        Seq::empty()
    } else if s.last() == '\r' {
        unix_lines(s.drop_last()).push('\n')
    } else if s.last() == '\n' && s.len() > 1 && s[s.len() - 2] == '\r' {
        unix_lines(s.drop_last())
    } else {
        unix_lines(s.drop_last()).push(s.last())
    }
}

/// What a paste puts into the terminal: no escape, and line feeds alone between
/// the lines.
pub open spec fn pasted(s: Seq<char>) -> Seq<char> {
    unix_lines(without_escapes(s))
}

/// The text with every line feed made a carriage return, as Enter sends it.
pub open spec fn entered(s: Seq<char>) -> Seq<char> {
    s.map_values(
        |c: char|
            if c == '\n' {
                '\r'
            } else {
                c
            },
    )
}

/// What a paste sends.
pub open spec fn paste_sequence(text: Seq<char>, bracketed: bool) -> Seq<u8> {
    encode_utf8(
        if bracketed {
            "\x1b[200~"@ + pasted(text) + "\x1b[201~"@
        } else {
            entered(pasted(text))
        },
    )
}

/// What pasting `text` sends to the program in the terminal.
pub fn encode_paste(text: &str, bracketed: bool) -> (out: Vec<u8>)
    ensures
        out@ == paste_sequence(text@, bracketed),
{
    let chars: Vec<char> = chars_of(text);
    let n: usize = chars.len();
    let mut kept: Vec<char> = Vec::new();
    let mut i: usize = 0;
    assert(chars@.take(0) =~= Seq::<char>::empty());
    while i < n
        invariant
            i <= n,
            n == chars@.len(),
            kept@ == without_escapes(chars@.take(i as int)),
        decreases n - i,
    {
        assert(chars@.take(i + 1).drop_last() =~= chars@.take(i as int));
        if chars[i] != '\x1b' {
            kept.push(chars[i]);
        }
        i += 1;
    }
    assert(chars@.take(n as int) =~= text@);
    let m: usize = kept.len();
    let mut out = String::new();
    if bracketed {
        out.append("\x1b[200~");
    }
    let ghost before = out@;
    let ghost end = |s: Seq<char>|
        if bracketed {
            s
        } else {
            entered(s)
        };
    let mut k: usize = 0;
    assert(kept@.take(0) =~= Seq::<char>::empty());
    assert(entered(Seq::<char>::empty()) =~= Seq::<char>::empty());
    assert(out@ =~= before + end(unix_lines(kept@.take(0))));
    while k < m
        invariant
            k <= m,
            m == kept@.len(),
            end == (|s: Seq<char>|
                if bracketed {
                    s
                } else {
                    entered(s)
                }),
            out@ == before + end(unix_lines(kept@.take(k as int))),
        decreases m - k,
    {
        let c: char = kept[k];
        let ghost done = unix_lines(kept@.take(k as int));
        assert(kept@.take(k + 1).drop_last() =~= kept@.take(k as int));
        if c == '\n' && k > 0 && kept[k - 1] == '\r' {
            assert(kept@.take(k + 1)[k - 1] == '\r');
        } else {
            let line = c == '\r' || c == '\n';
            let next: char = if !line {
                c
            } else if bracketed {
                '\n'
            } else {
                '\r'
            };
            out.push(next);
            proof {
                let added = if line {
                    '\n'
                } else {
                    c
                };
                if k > 0 {
                    assert(kept@.take(k + 1)[k - 1] == kept@[k - 1]);
                }
                assert(unix_lines(kept@.take(k + 1)) == done.push(added));
                assert(entered(done.push(added)) =~= entered(done).push(
                    if added == '\n' {
                        '\r'
                    } else {
                        added
                    },
                ));
                assert(out@ =~= before + end(unix_lines(kept@.take(k + 1))));
            }
        }
        k += 1;
    }
    assert(kept@.take(m as int) =~= kept@);
    if bracketed {
        out.append("\x1b[201~");
    }
    proof {
        if bracketed {
            assert(out@ =~= "\x1b[200~"@ + pasted(text@) + "\x1b[201~"@);
        } else {
            assert(out@ =~= entered(pasted(text@)));
        }
    }
    bytes_of(out.as_str())
}

proof fn lemma_without_escapes(s: Seq<char>)
    ensures
        forall|i: int|
            0 <= i < without_escapes(s).len() ==> #[trigger] without_escapes(s)[i] != '\x1b',
    decreases s.len(),
{
    if s.len() > 0 {
        let rest = s.drop_last();
        lemma_without_escapes(rest);
        assert forall|i: int| 0 <= i < without_escapes(s).len() implies #[trigger] without_escapes(
            s,
        )[i] != '\x1b' by {
            if i < without_escapes(rest).len() {
                assert(without_escapes(s)[i] == without_escapes(rest)[i]);
            }
        }
    }
}

proof fn lemma_unix_lines(s: Seq<char>)
    ensures
        forall|i: int|
            0 <= i < unix_lines(s).len() ==> #[trigger] unix_lines(s)[i] != '\r' && (
            unix_lines(s)[i] == '\n' || s.contains(unix_lines(s)[i])),
    decreases s.len(),
{
    if s.len() > 0 {
        let rest = s.drop_last();
        lemma_unix_lines(rest);
        assert forall|i: int| 0 <= i < unix_lines(s).len() implies #[trigger] unix_lines(s)[i]
            != '\r' && (unix_lines(s)[i] == '\n' || s.contains(unix_lines(s)[i])) by {
            let c = unix_lines(s)[i];
            if i < unix_lines(rest).len() {
                assert(c == unix_lines(rest)[i]);
                if c != '\n' {
                    let j = choose|j: int| 0 <= j < rest.len() && rest[j] == c;
                    assert(s[j] == c);
                }
            } else {
                assert(s[s.len() - 1] == s.last());
            }
        }
    }
}

proof fn lemma_encoded_byte(v: u32)
    by (bit_vector)
    requires
        v != 27,
    ensures
        v <= 0x7F ==> (v & 0x7F) as u8 != 27,
        0xC0u8 | ((v >> 6) & 0x1F) as u8 != 27,
        0xE0u8 | ((v >> 12) & 0x0F) as u8 != 27,
        0xF0u8 | ((v >> 18) & 0x7) as u8 != 27,
        0x80u8 | (v & 0x3F) as u8 != 27,
        0x80u8 | ((v >> 6) & 0x3F) as u8 != 27,
        0x80u8 | ((v >> 12) & 0x3F) as u8 != 27,
{
}

proof fn lemma_encoded_char(c: char)
    requires
        c != '\x1b',
    ensures
        forall|i: int|
            0 <= i < encode_scalar(c as u32).len() ==> #[trigger] encode_scalar(c as u32)[i] != 27,
{
    lemma_encoded_byte(c as u32);
}

proof fn lemma_encoded_without_escape(s: Seq<char>)
    requires
        forall|i: int| 0 <= i < s.len() ==> #[trigger] s[i] != '\x1b',
    ensures
        forall|i: int| 0 <= i < encode_utf8(s).len() ==> #[trigger] encode_utf8(s)[i] != 27,
    decreases s.len(),
{
    if s.len() > 0 {
        let rest = s.drop_first();
        assert forall|i: int| 0 <= i < rest.len() implies #[trigger] rest[i] != '\x1b' by {
            assert(rest[i] == s[i + 1]);
        }
        lemma_encoded_without_escape(rest);
        lemma_encoded_char(s[0]);
        assert forall|i: int| 0 <= i < encode_utf8(s).len() implies #[trigger] encode_utf8(s)[i]
            != 27 by {
            let head = encode_scalar(s[0] as u32);
            if i >= head.len() {
                assert(encode_utf8(s)[i] == encode_utf8(rest)[i - head.len()]);
            } else {
                assert(encode_utf8(s)[i] == head[i]);
            }
        }
    }
}

/// Nothing that is pasted can act as a command, or end a bracketed paste early:
/// what stands for the pasted text holds no escape character, no escape byte
/// and no carriage return, whatever the text is.
pub proof fn law_pasted_text_holds_no_escape(text: Seq<char>)
    ensures
        forall|i: int|
            0 <= i < pasted(text).len() ==> #[trigger] pasted(text)[i] != '\x1b' && pasted(text)[i]
                != '\r',
        forall|i: int|
            0 <= i < encode_utf8(pasted(text)).len() ==> #[trigger] encode_utf8(pasted(text))[i]
                != 27,
        forall|i: int|
            0 <= i < paste_sequence(text, false).len() ==> #[trigger] paste_sequence(
                text,
                false,
            )[i] != 27,
{
    let kept = without_escapes(text);
    lemma_without_escapes(text);
    lemma_unix_lines(kept);
    assert forall|i: int| 0 <= i < pasted(text).len() implies #[trigger] pasted(text)[i] != '\x1b'
        && pasted(text)[i] != '\r' by {
        let c = unix_lines(kept)[i];
        if c != '\n' {
            let j = choose|j: int| 0 <= j < kept.len() && kept[j] == c;
            assert(without_escapes(text)[j] == c);
        }
    }
    lemma_encoded_without_escape(pasted(text));
    assert forall|i: int| 0 <= i < entered(pasted(text)).len() implies #[trigger] entered(
        pasted(text),
    )[i] != '\x1b' by {
        assert(pasted(text)[i] != '\x1b');
    }
    lemma_encoded_without_escape(entered(pasted(text)));
}

/// The bytes with every line feed made a carriage return.
pub open spec fn entered_bytes(bytes: Seq<u8>) -> Seq<u8> {
    bytes.map_values(
        |b: u8|
            if b == 10 {
                13u8
            } else {
                b
            },
    )
}

proof fn lemma_line_feed_byte(v: u32)
    by (bit_vector)
    requires
        v != 10,
    ensures
        v <= 0x7F ==> (v & 0x7F) as u8 != 10,
        0xC0u8 | ((v >> 6) & 0x1F) as u8 != 10,
        0xE0u8 | ((v >> 12) & 0x0F) as u8 != 10,
        0xF0u8 | ((v >> 18) & 0x7) as u8 != 10,
        0x80u8 | (v & 0x3F) as u8 != 10,
        0x80u8 | ((v >> 6) & 0x3F) as u8 != 10,
        0x80u8 | ((v >> 12) & 0x3F) as u8 != 10,
{
}

proof fn lemma_entered_char(c: char)
    ensures
        entered_bytes(encode_scalar(c as u32)) == encode_scalar(
            (if c == '\n' {
                '\r'
            } else {
                c
            }) as u32,
        ),
{
    if c == '\n' {
        assert(10u32 & 0x7F == 10) by (bit_vector);
        assert(13u32 & 0x7F == 13) by (bit_vector);
        assert(encode_scalar('\n' as u32) =~= seq![10u8]);
        assert(encode_scalar('\r' as u32) =~= seq![13u8]);
    } else {
        lemma_line_feed_byte(c as u32);
    }
    assert(entered_bytes(encode_scalar(c as u32)) =~= encode_scalar(
        (if c == '\n' {
            '\r'
        } else {
            c
        }) as u32,
    ));
}

proof fn lemma_entered_encoded(s: Seq<char>)
    ensures
        entered_bytes(encode_utf8(s)) == encode_utf8(entered(s)),
    decreases s.len(),
{
    if s.len() == 0 {
        assert(entered(s) =~= s);
        assert(entered_bytes(encode_utf8(s)) =~= encode_utf8(s));
    } else {
        let rest = s.drop_first();
        lemma_entered_encoded(rest);
        lemma_entered_char(s[0]);
        assert(entered(s).drop_first() =~= entered(rest));
        assert(entered_bytes(encode_utf8(s)) =~= entered_bytes(encode_scalar(s[0] as u32))
            + entered_bytes(encode_utf8(rest)));
    }
}

proof fn lemma_encoded_joins(a: Seq<char>, b: Seq<char>)
    ensures
        encode_utf8(a + b) == encode_utf8(a) + encode_utf8(b),
    decreases a.len(),
{
    if a.len() == 0 {
        assert(a + b =~= b);
        assert(encode_utf8(a) + encode_utf8(b) =~= encode_utf8(b));
    } else {
        assert((a + b).drop_first() =~= a.drop_first() + b);
        lemma_encoded_joins(a.drop_first(), b);
        assert(encode_utf8(a + b) =~= encode_utf8(a) + encode_utf8(b));
    }
}

/// A bracketed paste and a plain one send the same text: between the brackets,
/// which take six bytes each, stands what the plain one sends, with line feeds in
/// the place of the carriage returns.
pub proof fn law_brackets_are_all_that_differs(text: Seq<char>)
    ensures
        ({
            let bracketed = paste_sequence(text, true);
            let plain = paste_sequence(text, false);
            &&& bracketed.len() == plain.len() + 12
            &&& bracketed.take(6) == encode_utf8("\x1b[200~"@)
            &&& bracketed.skip(bracketed.len() - 6) == encode_utf8("\x1b[201~"@)
            &&& entered_bytes(bracketed.subrange(6, bracketed.len() - 6)) == plain
        }),
{
    let inner = pasted(text);
    let open = "\x1b[200~"@;
    let close = "\x1b[201~"@;
    reveal_strlit("\x1b[200~");
    reveal_strlit("\x1b[201~");
    assert(encode_utf8(open).len() == 6) by {
        vstd::utf8::is_ascii_chars_encode_utf8(open);
    }
    assert(encode_utf8(close).len() == 6) by {
        vstd::utf8::is_ascii_chars_encode_utf8(close);
    }
    lemma_encoded_joins(open + inner, close);
    lemma_encoded_joins(open, inner);
    lemma_entered_encoded(inner);
    let all = paste_sequence(text, true);
    assert(all =~= encode_utf8(open) + encode_utf8(inner) + encode_utf8(close));
    assert(all.take(6) =~= encode_utf8(open));
    assert(all.skip(all.len() - 6) =~= encode_utf8(close));
    assert(all.subrange(6, all.len() - 6) =~= encode_utf8(inner));
}

proof fn lemma_no_escapes_to_take(s: Seq<char>)
    requires
        forall|i: int| 0 <= i < s.len() ==> #[trigger] s[i] != '\x1b',
    ensures
        without_escapes(s) == s,
    decreases s.len(),
{
    if s.len() > 0 {
        lemma_no_escapes_to_take(s.drop_last());
        assert(s[s.len() - 1] != '\x1b');
        assert(s.drop_last().push(s.last()) =~= s);
    }
}

proof fn lemma_returns_become_feeds(s: Seq<char>)
    requires
        forall|i: int| 0 <= i < s.len() ==> #[trigger] s[i] != '\r',
    ensures
        unix_lines(entered(s)) == s,
    decreases s.len(),
{
    let e = entered(s);
    if s.len() == 0 {
        assert(unix_lines(e) =~= s);
    } else {
        lemma_returns_become_feeds(s.drop_last());
        assert(e.drop_last() =~= entered(s.drop_last()));
        assert(s[s.len() - 1] != '\r');
        assert(s.drop_last().push(s.last()) =~= s);
    }
}

/// Pasting what a plain paste has sent sends the same once more: `again` is any
/// text with those bytes.
pub proof fn law_pasting_again_changes_nothing(text: Seq<char>, again: Seq<char>)
    requires
        encode_utf8(again) == paste_sequence(text, false),
    ensures
        paste_sequence(again, false) == paste_sequence(text, false),
{
    let inner = pasted(text);
    let sent = entered(inner);
    vstd::utf8::encode_utf8_decode_utf8(again);
    vstd::utf8::encode_utf8_decode_utf8(sent);
    assert(again == sent);
    law_pasted_text_holds_no_escape(text);
    assert forall|i: int| 0 <= i < sent.len() implies #[trigger] sent[i] != '\x1b' by {
        assert(inner[i] != '\x1b');
    }
    lemma_no_escapes_to_take(sent);
    assert forall|i: int| 0 <= i < inner.len() implies #[trigger] inner[i] != '\r' by {}
    lemma_returns_become_feeds(inner);
}

proof fn lemma_escapes_join(a: Seq<char>, b: Seq<char>)
    ensures
        without_escapes(a + b) == without_escapes(a) + without_escapes(b),
    decreases b.len(),
{
    if b.len() == 0 {
        assert(a + b =~= a);
        assert(without_escapes(a) + without_escapes(b) =~= without_escapes(a));
    } else {
        assert((a + b).drop_last() =~= a + b.drop_last());
        lemma_escapes_join(a, b.drop_last());
        assert(without_escapes(a + b) =~= without_escapes(a) + without_escapes(b));
    }
}

proof fn lemma_unix_lines_kept(s: Seq<char>)
    requires
        !s.contains('\r'),
    ensures
        unix_lines(s) == s,
    decreases s.len(),
{
    if s.len() > 0 {
        assert forall|j: int| 0 <= j < s.drop_last().len() implies s.drop_last()[j] != '\r' by {
            assert(s.contains(s[j]));
        }
        lemma_unix_lines_kept(s.drop_last());
        assert(s.contains(s[s.len() - 1]));
        if s.len() > 1 {
            assert(s.contains(s[s.len() - 2]));
        }
        assert(s.drop_last().push(s.last()) =~= s);
    }
}

/// A text that holds no escape and no carriage return is pasted as it is: between the
/// brackets stand its own bytes, and a plain paste sends it with a carriage return in
/// the place of every line feed and every other character kept.
pub proof fn law_plain_text_is_pasted_as_it_is(text: Seq<char>)
    requires
        !text.contains('\x1b') && !text.contains('\r'),
    ensures
        paste_sequence(text, true) == seq![27u8, 91u8, 50u8, 48u8, 48u8, 126u8] + encode_utf8(text)
            + seq![27u8, 91u8, 50u8, 48u8, 49u8, 126u8],
        paste_sequence(text, false) == encode_utf8(
            Seq::new(
                text.len(),
                |i: int|
                    if text[i] == '\n' {
                        '\r'
                    } else {
                        text[i]
                    },
            ),
        ),
{
    assert forall|i: int| 0 <= i < text.len() implies #[trigger] text[i] != '\x1b' by {
        assert(text.contains(text[i]));
    }
    lemma_no_escapes_to_take(text);
    lemma_unix_lines_kept(text);
    assert(entered(text) =~= Seq::new(
        text.len(),
        |i: int|
            if text[i] == '\n' {
                '\r'
            } else {
                text[i]
            },
    ));
    let open = "\x1b[200~"@;
    let close = "\x1b[201~"@;
    reveal_strlit("\x1b[200~");
    reveal_strlit("\x1b[201~");
    lemma_encoded_joins(open + text, close);
    lemma_encoded_joins(open, text);
    lemma_ascii_bytes(open);
    lemma_ascii_bytes(close);
    assert(encode_utf8(open) =~= seq![27u8, 91u8, 50u8, 48u8, 48u8, 126u8]);
    assert(encode_utf8(close) =~= seq![27u8, 91u8, 50u8, 48u8, 49u8, 126u8]);
}

proof fn lemma_ascii_bytes(s: Seq<char>)
    requires
        vstd::utf8::is_ascii_chars(s),
    ensures
        encode_utf8(s).len() == s.len(),
        forall|i: int| 0 <= i < s.len() ==> #[trigger] encode_utf8(s)[i] == s[i] as u8,
{
    vstd::utf8::is_ascii_chars_encode_utf8(s);
}

/// An escape in a pasted text does not count: the paste is that of the text without
/// it.
pub proof fn law_escapes_are_left_out_of_pastes(a: Seq<char>, b: Seq<char>, bracketed: bool)
    ensures
        paste_sequence(a + seq!['\x1b'] + b, bracketed) == paste_sequence(a + b, bracketed),
{
    let one = seq!['\x1b'];
    lemma_escapes_join(a + one, b);
    lemma_escapes_join(a, one);
    lemma_escapes_join(a, b);
    assert(one.drop_last() =~= Seq::<char>::empty());
    assert(without_escapes(one.drop_last()) =~= Seq::<char>::empty());
    assert(without_escapes(one) =~= Seq::<char>::empty());
    assert(without_escapes(a) + without_escapes(one) =~= without_escapes(a));
}

proof fn lemma_return_and_feed(a: Seq<char>, b: Seq<char>)
    requires
        !a.contains('\r'),
    ensures
        unix_lines(a + seq!['\r', '\n'] + b) == unix_lines(a + seq!['\n'] + b),
    decreases b.len(),
{
    let x = a + seq!['\r', '\n'] + b;
    let y = a + seq!['\n'] + b;
    if b.len() == 0 {
        assert(x.drop_last() =~= a.push('\r'));
        assert(a.push('\r').drop_last() =~= a);
        assert(x.last() == '\n' && x[x.len() - 2] == '\r');
        assert(unix_lines(a.push('\r')) == unix_lines(a).push('\n'));
        assert(y.drop_last() =~= a);
        if a.len() > 0 {
            assert(a.contains(y[y.len() - 2]));
        }
    } else {
        assert(x.drop_last() =~= a + seq!['\r', '\n'] + b.drop_last());
        assert(y.drop_last() =~= a + seq!['\n'] + b.drop_last());
        lemma_return_and_feed(a, b.drop_last());
        assert(x[x.len() - 2] == y[y.len() - 2]);
    }
}

proof fn lemma_return_alone(a: Seq<char>, b: Seq<char>)
    requires
        !a.contains('\r'),
        b.len() > 0 ==> b[0] != '\n',
    ensures
        unix_lines(a + seq!['\r'] + b) == unix_lines(a + seq!['\n'] + b),
    decreases b.len(),
{
    let x = a + seq!['\r'] + b;
    let y = a + seq!['\n'] + b;
    if b.len() == 0 {
        assert(x.drop_last() =~= a);
        assert(y.drop_last() =~= a);
        if a.len() > 0 {
            assert(a.contains(y[y.len() - 2]));
        }
    } else {
        assert(x.drop_last() =~= a + seq!['\r'] + b.drop_last());
        assert(y.drop_last() =~= a + seq!['\n'] + b.drop_last());
        lemma_return_alone(a, b.drop_last());
        if b.len() > 1 {
            assert(x[x.len() - 2] == y[y.len() - 2]);
        }
    }
}

/// The three line ends are one to a paste: a carriage return with a line feed behind
/// it, and one without, are each pasted as a line feed is. The first of them in the
/// text is exchanged, and so all of them are, one after the other.
pub proof fn law_line_ends_are_pasted_alike(a: Seq<char>, b: Seq<char>, bracketed: bool)
    requires
        !a.contains('\x1b') && !b.contains('\x1b'),
        !a.contains('\r'),
    ensures
        paste_sequence(a + seq!['\r', '\n'] + b, bracketed) == paste_sequence(
            a + seq!['\n'] + b,
            bracketed,
        ),
        b.len() == 0 || b[0] != '\n' ==> paste_sequence(a + seq!['\r'] + b, bracketed)
            == paste_sequence(a + seq!['\n'] + b, bracketed),
{
    lemma_escapes_absent(a, seq!['\r', '\n'], b);
    lemma_escapes_absent(a, seq!['\r'], b);
    lemma_escapes_absent(a, seq!['\n'], b);
    lemma_return_and_feed(a, b);
    if b.len() == 0 || b[0] != '\n' {
        lemma_return_alone(a, b);
    }
}

proof fn lemma_escapes_absent(a: Seq<char>, m: Seq<char>, b: Seq<char>)
    requires
        !a.contains('\x1b') && !m.contains('\x1b') && !b.contains('\x1b'),
    ensures
        without_escapes(a + m + b) == a + m + b,
{
    let all = a + m + b;
    assert forall|i: int| 0 <= i < all.len() implies #[trigger] all[i] != '\x1b' by {
        if i < a.len() {
            assert(a.contains(all[i]));
        } else if i < a.len() + m.len() {
            assert(all[i] == m[i - a.len()]);
            assert(m.contains(all[i]));
        } else {
            assert(all[i] == b[i - a.len() - m.len()]);
            assert(b.contains(all[i]));
        }
    }
    lemma_no_escapes_to_take(all);
}

/// The byte by which a sequence tells the modifiers: `1` for none, one more for Shift,
/// two for Alt and four for Control.
pub open spec fn modifier_byte(mods: Modifiers) -> u8 {
    (49 + (if mods.shift {
        1int
    } else {
        0
    }) + (if mods.alt {
        2int
    } else {
        0
    }) + (if mods.ctrl {
        4int
    } else {
        0
    })) as u8
}

/// Whether no modifier is held.
pub open spec fn unmodified(mods: Modifiers) -> bool {
    !mods.shift && !mods.alt && !mods.ctrl
}

/// The cursor keys send an escape, a bracket and their letter; where the program asks
/// for application keys, an `O` takes the place of the bracket. With modifiers a
/// sequence that tells them takes the place of both.
pub proof fn law_cursor_keys(key: Key, mods: Modifiers, application_cursor: bool)
    requires
        key == Key::ArrowUp || key == Key::ArrowDown || key == Key::ArrowRight || key
            == Key::ArrowLeft || key == Key::Home || key == Key::End,
    ensures
        ({
            let letter = match key {
                Key::ArrowUp => 65u8,
                Key::ArrowDown => 66u8,
                Key::ArrowRight => 67u8,
                Key::ArrowLeft => 68u8,
                Key::Home => 72u8,
                _ => 70u8,
            };
            key_sequence(key, mods, application_cursor) == Some(
                if !unmodified(mods) {
                    seq![27u8, 91u8, 49u8, 59u8, modifier_byte(mods), letter]
                } else if application_cursor {
                    seq![27u8, 79u8, letter]
                } else {
                    seq![27u8, 91u8, letter]
                },
            )
        }),
{
    reveal_strlit("\x1b[1;");
    reveal_strlit("\x1bO");
    reveal_strlit("\x1b[");
    let end = cursor_letter(key)->0;
    let m = modifier_number(mods);
    let with = "\x1b[1;"@ + decimal(m) + seq![end];
    let app = "\x1bO"@ + seq![end];
    let plain = "\x1b["@ + seq![end];
    assert(with =~= seq!['\x1b', '[', '1', ';', (48 + m) as char, end]);
    assert(app =~= seq!['\x1b', 'O', end]);
    assert(plain =~= seq!['\x1b', '[', end]);
    lemma_ascii_bytes(with);
    lemma_ascii_bytes(app);
    lemma_ascii_bytes(plain);
    let letter = end as u8;
    assert(encode_utf8(with) =~= seq![27u8, 91u8, 49u8, 59u8, modifier_byte(mods), letter]);
    assert(encode_utf8(app) =~= seq![27u8, 79u8, letter]);
    assert(encode_utf8(plain) =~= seq![27u8, 91u8, letter]);
}

/// The keys for editing and the function keys from F5 on send their number between an
/// escape with a bracket and a tilde, with the modifiers behind it where there are
/// any.
pub proof fn law_numbered_keys(key: Key, mods: Modifiers, application_cursor: bool)
    requires
        key == Key::Insert || key == Key::Delete || key == Key::PageUp || key == Key::PageDown
            || key == Key::F5 || key == Key::F6 || key == Key::F7 || key == Key::F8 || key
            == Key::F9 || key == Key::F10 || key == Key::F11 || key == Key::F12,
    ensures
        ({
            let number = match key {
                Key::Insert => seq![50u8],
                Key::Delete => seq![51u8],
                Key::PageUp => seq![53u8],
                Key::PageDown => seq![54u8],
                Key::F5 => seq![49u8, 53u8],
                Key::F6 => seq![49u8, 55u8],
                Key::F7 => seq![49u8, 56u8],
                Key::F8 => seq![49u8, 57u8],
                Key::F9 => seq![50u8, 48u8],
                Key::F10 => seq![50u8, 49u8],
                Key::F11 => seq![50u8, 51u8],
                _ => seq![50u8, 52u8],
            };
            key_sequence(key, mods, application_cursor) == Some(
                seq![27u8, 91u8] + number + (if unmodified(mods) {
                    seq![126u8]
                } else {
                    seq![59u8, modifier_byte(mods), 126u8]
                }),
            )
        }),
{
    lemma_numbered(tilde_number(key)->0 as nat, modifier_number(mods));
}

proof fn lemma_numbered(n: nat, m: nat)
    requires
        n < 100,
        m < 10,
    ensures
        ({
            let number = if n < 10 {
                seq![(48 + n) as u8]
            } else {
                seq![(48 + n / 10) as u8, (48 + n % 10) as u8]
            };
            &&& encode_utf8("\x1b["@ + decimal(n) + "~"@) == seq![27u8, 91u8] + number + seq![
                126u8,
            ]
            &&& encode_utf8("\x1b["@ + decimal(n) + ";"@ + decimal(m) + "~"@) == seq![27u8, 91u8]
                + number + seq![59u8, (48 + m) as u8, 126u8]
        }),
{
    reveal_strlit("\x1b[");
    reveal_strlit(";");
    reveal_strlit("~");
    if n >= 10 {
        crate::text::law_decimal_digits(n / 10, n % 10);
        crate::text::law_decimal_digits(0, n / 10);
        assert(10 * (n / 10) + n % 10 == n);
    }
    let digits = decimal(n);
    let number = if n < 10 {
        seq![(48 + n) as u8]
    } else {
        seq![(48 + n / 10) as u8, (48 + n % 10) as u8]
    };
    assert(digits =~= (if n < 10 {
        seq![(48 + n) as char]
    } else {
        seq![(48 + n / 10) as char, (48 + n % 10) as char]
    }));
    let with = "\x1b["@ + digits + ";"@ + decimal(m) + "~"@;
    let plain = "\x1b["@ + digits + "~"@;
    assert(with =~= seq!['\x1b', '['] + digits + seq![';', (48 + m) as char, '~']);
    assert(plain =~= seq!['\x1b', '['] + digits + seq!['~']);
    lemma_ascii_bytes(with);
    lemma_ascii_bytes(plain);
    assert(encode_utf8(with) =~= seq![27u8, 91u8] + number + seq![59u8, (48 + m) as u8, 126u8]);
    assert(encode_utf8(plain) =~= seq![27u8, 91u8] + number + seq![126u8]);
}

/// Enter sends a carriage return, Backspace a delete, Escape an escape, Tab a tab, or
/// with Shift the sequence for going back, and F1 to F4 the letters from P on. Alt puts
/// an escape before each.
pub proof fn law_fixed_keys(key: Key, mods: Modifiers, application_cursor: bool)
    requires
        key == Key::Enter || key == Key::Backspace || key == Key::Escape || key == Key::Tab || key
            == Key::F1 || key == Key::F2 || key == Key::F3 || key == Key::F4,
    ensures
        key_sequence(key, mods, application_cursor) == Some(
            (if mods.alt {
                seq![27u8]
            } else {
                Seq::<u8>::empty()
            }) + (match key {
                Key::Enter => seq![13u8],
                Key::Backspace => seq![127u8],
                Key::Escape => seq![27u8],
                Key::Tab => if mods.shift {
                    seq![27u8, 91u8, 90u8]
                } else {
                    seq![9u8]
                },
                Key::F1 => seq![27u8, 79u8, 80u8],
                Key::F2 => seq![27u8, 79u8, 81u8],
                Key::F3 => seq![27u8, 79u8, 82u8],
                _ => seq![27u8, 79u8, 83u8],
            }),
        ),
{
    reveal_strlit("\r");
    reveal_strlit("\x7f");
    reveal_strlit("\x1b");
    reveal_strlit("\t");
    reveal_strlit("\x1b[Z");
    reveal_strlit("\x1bOP");
    reveal_strlit("\x1bOQ");
    reveal_strlit("\x1bOR");
    reveal_strlit("\x1bOS");
    let text = fixed_sequence(key, mods.shift)->0;
    lemma_ascii_bytes(text);
    let bytes = match key {
        Key::Enter => seq![13u8],
        Key::Backspace => seq![127u8],
        Key::Escape => seq![27u8],
        Key::Tab => if mods.shift {
            seq![27u8, 91u8, 90u8]
        } else {
            seq![9u8]
        },
        Key::F1 => seq![27u8, 79u8, 80u8],
        Key::F2 => seq![27u8, 79u8, 81u8],
        Key::F3 => seq![27u8, 79u8, 82u8],
        _ => seq![27u8, 79u8, 83u8],
    };
    assert(encode_utf8(text) =~= bytes);
    assert(Seq::<u8>::empty() + bytes =~= bytes);
}

/// The character on a key that Control makes a control character of. The space bar
/// stands for the character before `A`.
pub open spec fn control_base(key: Key) -> Option<char> {
    match key {
        Key::A => Some('A'),
        Key::B => Some('B'),
        Key::C => Some('C'),
        Key::D => Some('D'),
        Key::E => Some('E'),
        Key::F => Some('F'),
        Key::G => Some('G'),
        Key::H => Some('H'),
        Key::I => Some('I'),
        Key::J => Some('J'),
        Key::K => Some('K'),
        Key::L => Some('L'),
        Key::M => Some('M'),
        Key::N => Some('N'),
        Key::O => Some('O'),
        Key::P => Some('P'),
        Key::Q => Some('Q'),
        Key::R => Some('R'),
        Key::S => Some('S'),
        Key::T => Some('T'),
        Key::U => Some('U'),
        Key::V => Some('V'),
        Key::W => Some('W'),
        Key::X => Some('X'),
        Key::Y => Some('Y'),
        Key::Z => Some('Z'),
        Key::OpenBracket => Some('['),
        Key::Backslash => Some('\\'),
        Key::CloseBracket => Some(']'),
        Key::Space => Some('@'),
        _ => None,
    }
}

/// Control takes 64 from the character of a key and sends that byte alone. Without
/// Control, or with Alt as well, such a key sends nothing but the text that it types.
pub proof fn law_control_takes_64(key: Key, mods: Modifiers, application_cursor: bool)
    requires
        control_base(key) is Some,
    ensures
        key_sequence(key, mods, application_cursor) == (if mods.ctrl && !mods.alt {
            Some(seq![(control_base(key)->0 as int - 64) as u8])
        } else {
            None
        }),
{
}

/// Whether the key sends a sequence of its own, with no character of the text.
pub open spec fn sends_sequence(key: Key) -> bool {
    match key {
        Key::ArrowUp | Key::ArrowDown | Key::ArrowRight | Key::ArrowLeft | Key::Home | Key::End
        | Key::Insert | Key::Delete | Key::PageUp | Key::PageDown | Key::F1 | Key::F2 | Key::F3
        | Key::F4 | Key::F5 | Key::F6 | Key::F7 | Key::F8 | Key::F9 | Key::F10 | Key::F11
        | Key::F12 | Key::Enter | Key::Backspace | Key::Escape | Key::Tab => true,
        _ => false,
    }
}

/// No other key sends anything.
pub proof fn law_other_keys_send_nothing(key: Key, mods: Modifiers, application_cursor: bool)
    requires
        !sends_sequence(key),
        control_base(key) is None,
    ensures
        key_sequence(key, mods, application_cursor) is None,
{
}

proof fn lemma_key_bytes(key: Key, mods: Modifiers, application_cursor: bool)
    requires
        sends_sequence(key),
    ensures
        key_sequence(key, mods, application_cursor) is Some,
        key_named(key_sequence(key, mods, application_cursor)->0, mods) == key,
{
    match key {
        Key::ArrowUp | Key::ArrowDown | Key::ArrowRight | Key::ArrowLeft | Key::Home
        | Key::End => law_cursor_keys(key, mods, application_cursor),
        Key::Enter | Key::Backspace | Key::Escape | Key::Tab | Key::F1 | Key::F2 | Key::F3
        | Key::F4 => law_fixed_keys(key, mods, application_cursor),
        _ => law_numbered_keys(key, mods, application_cursor),
    }
}

/// The key that a sequence names.
spec fn key_named(bytes: Seq<u8>, mods: Modifiers) -> Key {
    let n = bytes.len();
    let from = if mods.alt && n > 1 && bytes[1] != 91 && bytes[1] != 79 || (mods.alt && n > 1
        && bytes[0] == 27 && bytes[1] == 27) {
        1int
    } else {
        0
    };
    let at = |i: int| bytes[from + i];
    if n - from == 1 {
        if at(0) == 13 {
            Key::Enter
        } else if at(0) == 127 {
            Key::Backspace
        } else if at(0) == 9 {
            Key::Tab
        } else {
            Key::Escape
        }
    } else if bytes.last() == 126 {
        let two = n > 4 && bytes[3] != 59 && bytes[3] != 126;
        if !two {
            if bytes[2] == 50 {
                Key::Insert
            } else if bytes[2] == 51 {
                Key::Delete
            } else if bytes[2] == 53 {
                Key::PageUp
            } else {
                Key::PageDown
            }
        } else if bytes[2] == 49 {
            if bytes[3] == 53 {
                Key::F5
            } else if bytes[3] == 55 {
                Key::F6
            } else if bytes[3] == 56 {
                Key::F7
            } else {
                Key::F8
            }
        } else if bytes[3] == 48 {
            Key::F9
        } else if bytes[3] == 49 {
            Key::F10
        } else if bytes[3] == 51 {
            Key::F11
        } else {
            Key::F12
        }
    } else if bytes.last() == 65 {
        Key::ArrowUp
    } else if bytes.last() == 66 {
        Key::ArrowDown
    } else if bytes.last() == 67 {
        Key::ArrowRight
    } else if bytes.last() == 68 {
        Key::ArrowLeft
    } else if bytes.last() == 72 {
        Key::Home
    } else if bytes.last() == 70 {
        Key::End
    } else if bytes.last() == 90 {
        Key::Tab
    } else if bytes.last() == 80 {
        Key::F1
    } else if bytes.last() == 81 {
        Key::F2
    } else if bytes.last() == 82 {
        Key::F3
    } else {
        Key::F4
    }
}

/// No two keys send the same, whatever modifiers are held with both: the program in
/// the terminal can tell them apart.
pub proof fn law_keys_are_told_apart(a: Key, b: Key, mods: Modifiers, application_cursor: bool)
    requires
        sends_sequence(a) && sends_sequence(b),
        key_sequence(a, mods, application_cursor) == key_sequence(b, mods, application_cursor),
    ensures
        a == b,
{
    lemma_key_bytes(a, mods, application_cursor);
    lemma_key_bytes(b, mods, application_cursor);
}

/// What a mouse report in decimal numbers says: the button with what the modifiers add
/// to it, the column and the row counted from one, and whether the button was released.
pub proof fn law_decimal_mouse_reports(
    button: u8,
    col: u16,
    row: u16,
    release: bool,
    mods: Modifiers,
)
    ensures
        mouse_report(button, col, row, release, mods, MouseProtocolEncoding::Sgr) == encode_utf8(
            seq!['\x1b', '[', '<'] + decimal(
                (button + (if mods.shift {
                    4int
                } else {
                    0
                }) + (if mods.alt {
                    8int
                } else {
                    0
                }) + (if mods.ctrl {
                    16int
                } else {
                    0
                })) as nat,
            ) + seq![';'] + decimal((col + 1) as nat) + seq![';'] + decimal((row + 1) as nat) + (
            if release {
                seq!['m']
            } else {
                seq!['M']
            }),
        ),
{
    reveal_strlit("\x1b[<");
    reveal_strlit(";");
    reveal_strlit("m");
    reveal_strlit("M");
    assert("\x1b[<"@ =~= seq!['\x1b', '[', '<']);
    assert(";"@ =~= seq![';']);
    assert("m"@ =~= seq!['m']);
    assert("M"@ =~= seq!['M']);
}

/// What a mouse report in bytes says: the button, or three where it was released, with
/// what the modifiers add, then the column and the row counted from one, each number 32
/// more than it is, and no more than the last that the encoding can carry.
pub proof fn law_byte_mouse_reports(
    button: u8,
    col: u16,
    row: u16,
    release: bool,
    mods: Modifiers,
)
    requires
        release || button < 128,
    ensures
        ({
            let out = mouse_report(
                button,
                col,
                row,
                release,
                mods,
                MouseProtocolEncoding::Default,
            );
            let wide = mouse_report(button, col, row, release, mods, MouseProtocolEncoding::Utf8);
            let code = (32 + (if release {
                3
            } else {
                button as int
            }) + (if mods.shift {
                4int
            } else {
                0
            }) + (if mods.alt {
                8int
            } else {
                0
            }) + (if mods.ctrl {
                16int
            } else {
                0
            })) as u8;
            &&& out.len() == 6
            &&& out.take(4) == seq![27u8, 91u8, 77u8, code]
            &&& out[4] == (if col < 222 {
                col + 33
            } else {
                255
            })
            &&& out[5] == (if row < 222 {
                row + 33
            } else {
                255
            })
            &&& wide == seq![27u8, 91u8, 77u8, code] + encode_utf8(
                seq![
                    (if col < 2014 {
                        col + 33
                    } else {
                        2047
                    }) as char,
                    (if row < 2014 {
                        row + 33
                    } else {
                        2047
                    }) as char,
                ],
            )
        }),
{
    let x = (if col < 2014 {
        col + 33
    } else {
        2047
    }) as char;
    let y = (if row < 2014 {
        row + 33
    } else {
        2047
    }) as char;
    let both = seq![x, y];
    assert(both.drop_first() =~= seq![y]);
    assert(seq![y].drop_first() =~= Seq::<char>::empty());
    reveal_with_fuel(encode_utf8, 3);
    assert(encode_utf8(both) =~= encode_scalar(x as u32) + encode_scalar(y as u32));
    let out = mouse_report(button, col, row, release, mods, MouseProtocolEncoding::Default);
    assert(out.take(4) =~= seq![27u8, 91u8, 77u8, out[3]]);
    let wide = mouse_report(button, col, row, release, mods, MouseProtocolEncoding::Utf8);
    assert(wide =~= seq![27u8, 91u8, 77u8, out[3]] + (encode_scalar(x as u32) + encode_scalar(
        y as u32,
    )));
}

} // verus!
