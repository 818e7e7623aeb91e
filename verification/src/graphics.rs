//! Pictures in the terminal output: finding them among the operating system
//! commands (OSC) and decoding them.

use base64::Engine;
use std::sync::Arc;
use vstd::prelude::*;
use vstd::slice::slice_subrange;

verus! {

/// The longest operating system command that is kept, in bytes.
pub const MAX_OSC: usize = 8_388_608;

/// The widest picture that is decoded, in pixels.
pub const MAX_WIDTH: u32 = 4096;

/// The highest picture that is decoded, in pixels.
pub const MAX_HEIGHT: u32 = 4096;

/// The most memory that decoding a picture may take, in bytes.
pub const MAX_ALLOC: u64 = 33_554_432;

/// `1337;File=`, how a command that carries a file starts.
pub open spec fn file_prefix() -> Seq<u8> {
    seq![49u8, 51, 51, 55, 59, 70, 105, 108, 101, 61]
}

/// `inline=1`, the option that asks for the file to be shown.
pub open spec fn inline_option() -> Seq<u8> {
    seq![105u8, 110, 108, 105, 110, 101, 61, 49]
}

/// The index of the first `x`, or the length.
pub open spec fn first_byte(s: Seq<u8>, x: u8) -> int
    decreases s.len(),
{
    if s.len() == 0 || s[0] == x {
        0
    } else {
        1 + first_byte(s.skip(1), x)
    }
}

/// Whether `part` stands in `s` from index `i` on.
pub open spec fn found_at(s: Seq<u8>, part: Seq<u8>, i: int) -> bool {
    0 <= i && i + part.len() <= s.len() && s.subrange(i, i + part.len()) == part
}

/// Whether `part` stands somewhere in `s`.
pub open spec fn holds(s: Seq<u8>, part: Seq<u8>) -> bool {
    exists|i: int| #[trigger] found_at(s, part, i)
}

/// The base64 text of a file command that asks to be shown: what follows the
/// first colon, where the options before it hold `inline=1`.
pub open spec fn shown_file(payload: Seq<u8>) -> Option<Seq<u8>> {
    let colon = first_byte(payload, 58);
    if colon < payload.len() && holds(payload.take(colon), inline_option()) {
        Some(payload.skip(colon + 1))
    } else {
        None
    }
}

/// A piece of the output, with a file still in base64.
#[derive(Debug)]
pub enum RawToken {
    /// Bytes for the terminal.
    Text(Vec<u8>),
    /// The base64 text of a picture.
    Encoded(Vec<u8>),
}

/// A piece of the output.
#[derive(Debug)]
pub enum Token {
    /// Bytes for the terminal.
    Text(Vec<u8>),
    /// The bytes of a picture file.
    Image(Vec<u8>),
}

/// What a piece holds: text, or the other thing that the piece can be.
pub enum Piece {
    /// Bytes for the terminal.
    Text(Seq<u8>),
    /// A picture, in base64 or decoded.
    Picture(Seq<u8>),
}

impl View for RawToken {
    type V = Piece;

    open spec fn view(&self) -> Piece {
        match self {
            RawToken::Text(v) => Piece::Text(v@),
            RawToken::Encoded(v) => Piece::Picture(v@),
        }
    }
}

impl View for Token {
    type V = Piece;

    open spec fn view(&self) -> Piece {
        match self {
            Token::Text(v) => Piece::Text(v@),
            Token::Image(v) => Piece::Picture(v@),
        }
    }
}

/// What the raw pieces of a list hold.
pub open spec fn raw_pieces(list: Seq<RawToken>) -> Seq<Piece> {
    list.map_values(|t: RawToken| t@)
}

/// What the pieces of a list hold.
pub open spec fn pieces(list: Seq<Token>) -> Seq<Piece> {
    list.map_values(|t: Token| t@)
}

/// Where a scanner stands in the output.
pub struct ScanState {
    /// The last byte was an escape outside of a command.
    pub escape: bool,
    /// The bytes of the command that has not ended yet.
    pub osc: Option<Seq<u8>>,
    /// That command is too long and is thrown away.
    pub discard: bool,
}

/// What one byte of output adds.
pub enum Emission {
    /// Bytes for the terminal.
    Text(Seq<u8>),
    /// The end of a file command, with the base64 text to show, if any.
    File(Option<Seq<u8>>),
}

impl ScanState {
    /// The state before any output.
    pub open spec fn start() -> ScanState {
        ScanState { escape: false, osc: None, discard: false }
    }

    /// The command never grows over its limit, and an escape is pending only
    /// outside of one.
    pub open spec fn well_formed(self) -> bool {
        match self.osc {
            Some(osc) => osc.len() <= MAX_OSC && !self.escape,
            None => !self.discard,
        }
    }

    /// Whether `b` ends the command `osc`: a bell does, and so does a
    /// backslash behind an escape.
    pub open spec fn ends(osc: Seq<u8>, b: u8) -> bool {
        b == 7 || (b == 92 && osc.len() > 0 && osc.last() == 27)
    }

    /// The command without the escape of its terminator.
    pub open spec fn payload(osc: Seq<u8>) -> Seq<u8> {
        if osc.len() > 0 && osc.last() == 27 {
            osc.drop_last()
        } else {
            osc
        }
    }

    /// The state after one more byte.
    pub open spec fn after(self, b: u8) -> ScanState {
        match self.osc {
            Some(osc) => if ScanState::ends(osc, b) {
                ScanState { osc: None, discard: false, ..self }
            } else if !self.discard {
                if osc.len() < MAX_OSC {
                    ScanState { osc: Some(osc.push(b)), ..self }
                } else {
                    ScanState { osc: Some(Seq::empty()), discard: true, ..self }
                }
            } else {
                ScanState {
                    osc: Some(
                        if b == 27 {
                            seq![27u8]
                        } else {
                            Seq::empty()
                        },
                    ),
                    ..self
                }
            },
            None => if self.escape && b == 93 {
                ScanState { escape: false, osc: Some(Seq::empty()), ..self }
            } else {
                ScanState { escape: b == 27, ..self }
            },
        }
    }

    /// What one more byte adds to the output: outside of a command the byte
    /// itself, with an escape held back until the next byte shows that no
    /// command starts; at the end of a command the command, rewritten to end
    /// in a bell, or the file in it.
    pub open spec fn emits(self, b: u8) -> Emission {
        match self.osc {
            Some(osc) => if !ScanState::ends(osc, b) || self.discard {
                Emission::Text(Seq::empty())
            } else if file_prefix().is_prefix_of(ScanState::payload(osc)) {
                Emission::File(shown_file(ScanState::payload(osc)))
            } else {
                Emission::Text(seq![27u8, 93u8] + ScanState::payload(osc) + seq![7u8])
            },
            None => if self.escape && b == 93 {
                Emission::Text(Seq::empty())
            } else {
                Emission::Text(
                    (if self.escape {
                        seq![27u8]
                    } else {
                        Seq::empty()
                    }) + (if b == 27 {
                        Seq::empty()
                    } else {
                        seq![b]
                    }),
                )
            },
        }
    }
}

/// What scanning has led to: the state, the finished pieces, and the text that
/// has been collected since.
pub struct Progress {
    /// Where the scanner stands.
    pub state: ScanState,
    /// The finished pieces.
    pub done: Seq<Piece>,
    /// The text since the last finished piece.
    pub text: Seq<u8>,
}

impl Progress {
    /// Every piece, with the collected text as the last one.
    pub open spec fn all(self) -> Seq<Piece> {
        if self.text.len() == 0 {
            self.done
        } else {
            self.done.push(Piece::Text(self.text))
        }
    }
}

/// What scanning `bytes` from `state` on leads to.
pub open spec fn scanned(state: ScanState, bytes: Seq<u8>) -> Progress
    decreases bytes.len(),
{
    if bytes.len() == 0 {
        Progress { state, done: Seq::empty(), text: Seq::empty() }
    } else {
        let before = scanned(state, bytes.drop_last());
        let next = before.state.after(bytes.last());
        match before.state.emits(bytes.last()) {
            Emission::Text(t) => Progress { state: next, text: before.text + t, ..before },
            Emission::File(shown) => Progress {
                state: next,
                done: match shown {
                    Some(data) => before.all().push(Piece::Picture(data)),
                    None => before.all(),
                },
                text: Seq::empty(),
            },
        }
    }
}

/// The pieces with every picture decoded; one that is not base64 is left out.
pub open spec fn decoded(list: Seq<Piece>) -> Seq<Piece>
    decreases list.len(),
{
    if list.len() == 0 {
        Seq::empty()
    } else {
        let before = decoded(list.drop_last());
        match list.last() {
            Piece::Text(t) => before.push(Piece::Text(t)),
            Piece::Picture(data) => match base64_decoded(data) {
                Some(file) => before.push(Piece::Picture(file)),
                None => before,
            },
        }
    }
}

/// The text in a list of pieces, joined.
pub open spec fn text_of(list: Seq<Piece>) -> Seq<u8>
    decreases list.len(),
{
    if list.len() == 0 {
        Seq::empty()
    } else {
        match list.last() {
            Piece::Text(t) => text_of(list.drop_last()) + t,
            Piece::Picture(_) => text_of(list.drop_last()),
        }
    }
}

/// The pictures in a list of pieces, in order.
pub open spec fn pictures_of(list: Seq<Piece>) -> Seq<Seq<u8>>
    decreases list.len(),
{
    if list.len() == 0 {
        Seq::empty()
    } else {
        match list.last() {
            Piece::Text(_) => pictures_of(list.drop_last()),
            Piece::Picture(p) => pictures_of(list.drop_last()).push(p),
        }
    }
}

/// Pieces with more text behind them: it joins the text that they end in.
pub open spec fn with_text(list: Seq<Piece>, text: Seq<u8>) -> Seq<Piece> {
    if text.len() == 0 {
        list
    } else if list.len() > 0 {
        match list.last() {
            Piece::Text(t) => list.drop_last().push(Piece::Text(t + text)),
            Piece::Picture(_) => list.push(Piece::Text(text)),
        }
    } else {
        list.push(Piece::Text(text))
    }
}

/// The pieces with every run of text made one piece: what is seen of them.
pub open spec fn merged(list: Seq<Piece>) -> Seq<Piece>
    decreases list.len(),
{
    if list.len() == 0 {
        Seq::empty()
    } else {
        let before = merged(list.drop_last());
        match list.last() {
            Piece::Text(t) => with_text(before, t),
            Piece::Picture(data) => before.push(Piece::Picture(data)),
        }
    }
}

/// What the standard base64 alphabet, with its padding, makes of a text; none
/// where the text is not base64.
pub uninterp spec fn base64_decoded(data: Seq<u8>) -> Option<Seq<u8>>;

/// The contents of bytes that may be missing.
pub open spec fn optional_bytes(bytes: Option<Vec<u8>>) -> Option<Seq<u8>> {
    match bytes {
        Some(v) => Some(v@),
        None => None,
    }
}

/// `base64::Engine::decode` of the engine
/// `base64::engine::general_purpose::STANDARD`. It gives the decoded bytes, or
/// an error for a text that is not base64, by the text alone.
#[verifier::external_body]
fn decode_base64(data: &[u8]) -> (out: Option<Vec<u8>>)
    ensures
        optional_bytes(out) == base64_decoded(data@),
{
    base64::engine::general_purpose::STANDARD.decode(data).ok()
}

/// Finds the files in terminal output that arrives in parts.
pub struct OscScanner {
    escape: bool,
    osc: Option<Vec<u8>>,
    discard: bool,
}

impl View for OscScanner {
    type V = ScanState;

    closed spec fn view(&self) -> ScanState {
        ScanState { escape: self.escape, osc: optional_bytes(self.osc), discard: self.discard }
    }
}

/// Whether `s` starts with `part`.
fn starts_with(s: &[u8], part: &[u8]) -> (yes: bool)
    ensures
        yes == part@.is_prefix_of(s@),
{
    if part.len() > s.len() {
        return false;
    }
    let n: usize = part.len();
    for i in 0..n
        invariant
            n == part@.len(),
            n <= s@.len(),
            forall|j: int| 0 <= j < i ==> part@[j] == s@[j],
    {
        if part[i] != s[i] {
            assert(s@.subrange(0, n as int)[i as int] == s@[i as int]);
            return false;
        }
    }
    assert(part@ =~= s@.subrange(0, n as int));
    true
}

/// The index of the first `x`, or the length.
fn find_byte(s: &[u8], x: u8) -> (k: usize)
    ensures
        k == first_byte(s@, x),
        k <= s@.len(),
{
    let n: usize = s.len();
    let mut k: usize = 0;
    assert(s@.skip(0) =~= s@);
    while k < n && s[k] != x
        invariant
            k <= n,
            n == s@.len(),
            first_byte(s@, x) == k + first_byte(s@.skip(k as int), x),
        decreases n - k,
    {
        assert(s@.skip(k as int).skip(1) =~= s@.skip(k + 1));
        k += 1;
    }
    k
}

/// Whether `part` stands somewhere in `s`.
fn contains(s: &[u8], part: &[u8]) -> (yes: bool)
    ensures
        yes == holds(s@, part@),
{
    let n: usize = s.len();
    let m: usize = part.len();
    let mut i: usize = 0;
    while m <= n - i
        invariant
            i <= n,
            n == s@.len(),
            m == part@.len(),
            forall|j: int| 0 <= j < i ==> !#[trigger] found_at(s@, part@, j),
        decreases n - i,
    {
        let rest = slice_subrange(s, i, n);
        assert(rest@.subrange(0, m as int) =~= s@.subrange(i as int, i + m));
        if starts_with(rest, part) {
            assert(found_at(s@, part@, i as int));
            return true;
        }
        assert(!found_at(s@, part@, i as int));
        assert(i < n) by {
            if i == n {
                assert(s@.subrange(n as int, n as int) =~= part@);
            }
        }
        i += 1;
    }
    assert forall|j: int| !#[trigger] found_at(s@, part@, j) by {}
    false
}

/// The base64 text of a file command that asks to be shown.
pub fn find_shown_file(payload: &[u8]) -> (out: Option<Vec<u8>>)
    ensures
        optional_bytes(out) == shown_file(payload@),
{
    let colon: usize = find_byte(payload, 58);
    let n: usize = payload.len();
    let option: [u8; 8] = [105, 110, 108, 105, 110, 101, 61, 49];
    assert(option@ =~= inline_option());
    if colon < n {
        let options = slice_subrange(payload, 0, colon);
        assert(options@ =~= payload@.take(colon as int));
        if contains(options, &option) {
            let mut data: Vec<u8> = Vec::new();
            data.extend_from_slice(slice_subrange(payload, colon + 1, n));
            assert(data@ =~= payload@.skip(colon + 1));
            return Some(data);
        }
    }
    None
}

/// The piece that a raw piece becomes, given what decoding its base64 text has
/// led to.
pub fn finish_token(raw: RawToken, file: Option<Vec<u8>>) -> (out: Option<Token>)
    ensures
        match (raw@, out) {
            (Piece::Text(t), Some(token)) => token@ == Piece::Text(t),
            (Piece::Text(_), None) => false,
            (Piece::Picture(_), Some(token)) => file is Some && token@ == Piece::Picture(file->0@),
            (Piece::Picture(_), None) => file is None,
        },
{
    match raw {
        RawToken::Text(text) => Some(Token::Text(text)),
        RawToken::Encoded(_) => match file {
            Some(data) => Some(Token::Image(data)),
            None => None,
        },
    }
}

impl Default for OscScanner {
    fn default() -> (scanner: OscScanner)
        ensures
            scanner@ == ScanState::start(),
    {
        OscScanner { escape: false, osc: None, discard: false }
    }
}

impl OscScanner {
    /// Takes one more byte, adding to the text collected so far; at the end of
    /// a file command the text and the file become pieces.
    fn take_byte(&mut self, b: u8, text: &mut Vec<u8>, tokens: &mut Vec<RawToken>)
        requires
            old(self)@.well_formed(),
        ensures
            final(self)@ == old(self)@.after(b),
            final(self)@.well_formed(),
            match old(self)@.emits(b) {
                Emission::Text(t) => final(text)@ == old(text)@ + t && final(tokens)@ == old(
                    tokens,
                )@,
                Emission::File(shown) => {
                    let flushed = (if old(text)@.len() == 0 {
                        raw_pieces(old(tokens)@)
                    } else {
                        raw_pieces(old(tokens)@).push(Piece::Text(old(text)@))
                    });
                    &&& final(text)@ == Seq::<u8>::empty()
                    &&& raw_pieces(final(tokens)@) == (match shown {
                        Some(data) => flushed.push(Piece::Picture(data)),
                        None => flushed,
                    })
                },
            },
    {
        match self.osc.take() {
            Some(mut osc) => {
                let n: usize = osc.len();
                let ends = b == 7 || (b == 92 && n > 0 && osc[n - 1] == 27);
                if ends {
                    if n > 0 && osc[n - 1] == 27 {
                        osc.pop();
                    }
                    let discard = self.discard;
                    self.discard = false;
                    if !discard {
                        let prefix: [u8; 10] = [49, 51, 51, 55, 59, 70, 105, 108, 101, 61];
                        assert(prefix@ =~= file_prefix());
                        if starts_with(osc.as_slice(), &prefix) {
                            if text.len() > 0 {
                                let mut run: Vec<u8> = Vec::new();
                                run.append(text);
                                let ghost before = tokens@;
                                tokens.push(RawToken::Text(run));
                                assert(raw_pieces(tokens@) =~= raw_pieces(before).push(
                                    Piece::Text(run@),
                                ));
                            }
                            if let Some(data) = find_shown_file(osc.as_slice()) {
                                let ghost before = tokens@;
                                tokens.push(RawToken::Encoded(data));
                                assert(raw_pieces(tokens@) =~= raw_pieces(before).push(
                                    Piece::Picture(data@),
                                ));
                            }
                        } else {
                            text.push(27);
                            text.push(93);
                            text.append(&mut osc);
                            text.push(7);
                        }
                    }
                } else if !self.discard {
                    if n < MAX_OSC {
                        osc.push(b);
                    } else {
                        self.discard = true;
                        osc.clear();
                    }
                    self.osc = Some(osc);
                } else {
                    osc.clear();
                    if b == 27 {
                        osc.push(b);
                    }
                    self.osc = Some(osc);
                }
            },
            None => {
                if self.escape {
                    self.escape = false;
                    if b == 93 {
                        self.osc = Some(Vec::new());
                        return;
                    }
                    text.push(27);
                }
                if b == 27 {
                    self.escape = true;
                } else {
                    text.push(b);
                }
            },
        }
    }

    /// Takes the next bytes of the output and gives back the pieces in them,
    /// with the files still in base64.
    pub fn scan(&mut self, bytes: &[u8]) -> (tokens: Vec<RawToken>)
        requires
            old(self)@.well_formed(),
        ensures
            final(self)@ == scanned(old(self)@, bytes@).state,
            final(self)@.well_formed(),
            raw_pieces(tokens@) == scanned(old(self)@, bytes@).all(),
    {
        let mut tokens: Vec<RawToken> = Vec::new();
        let mut text: Vec<u8> = Vec::new();
        let n: usize = bytes.len();
        let mut i: usize = 0;
        assert(bytes@.take(0) =~= Seq::<u8>::empty());
        assert(raw_pieces(tokens@) =~= Seq::<Piece>::empty());
        while i < n
            invariant
                i <= n,
                n == bytes@.len(),
                self@.well_formed(),
                self@ == scanned(old(self)@, bytes@.take(i as int)).state,
                text@ == scanned(old(self)@, bytes@.take(i as int)).text,
                raw_pieces(tokens@) == scanned(old(self)@, bytes@.take(i as int)).done,
            decreases n - i,
        {
            self.take_byte(bytes[i], &mut text, &mut tokens);
            assert(bytes@.take(i + 1).drop_last() =~= bytes@.take(i as int));
            i += 1;
        }
        assert(bytes@.take(n as int) =~= bytes@);
        if text.len() > 0 {
            let ghost before = tokens@;
            tokens.push(RawToken::Text(text));
            assert(raw_pieces(tokens@) =~= raw_pieces(before).push(Piece::Text(text@)));
        }
        tokens
    }

    /// Takes the next bytes of the output and gives back the pieces in them.
    pub fn feed(&mut self, bytes: &[u8]) -> (tokens: Vec<Token>)
        requires
            old(self)@.well_formed(),
        ensures
            final(self)@ == scanned(old(self)@, bytes@).state,
            final(self)@.well_formed(),
            pieces(tokens@) == decoded(scanned(old(self)@, bytes@).all()),
    {
        let raws: Vec<RawToken> = self.scan(bytes);
        let mut tokens: Vec<Token> = Vec::new();
        let ghost list = raw_pieces(raws@);
        assert(list.take(0) =~= Seq::<Piece>::empty());
        assert(pieces(tokens@) =~= Seq::<Piece>::empty());
        for raw in it: raws
            invariant
                list == raw_pieces(it.seq()),
                pieces(tokens@) == decoded(list.take(it.index() as int)),
        {
            let ghost k = it.index() as int;
            assert(list.take(k + 1).drop_last() =~= list.take(k));
            assert(list.take(k + 1).last() == raw@);
            let file: Option<Vec<u8>> = match &raw {
                RawToken::Text(_) => None,
                RawToken::Encoded(data) => decode_base64(data.as_slice()),
            };
            let ghost before = tokens@;
            if let Some(token) = finish_token(raw, file) {
                tokens.push(token);
                assert(pieces(tokens@) =~= pieces(before).push(token@));
            }
        }
        assert(list.take(list.len() as int) =~= list);
        tokens
    }
}

/// The pixels of a decoded picture: four bytes each, red, green, blue and
/// opacity, row by row.
#[derive(Debug)]
pub struct Picture {
    /// The width in pixels.
    pub width: u32,
    /// The height in pixels.
    pub height: u32,
    /// The bytes of the pixels.
    pub rgba: Vec<u8>,
}

/// A picture with a place on the screen.
#[derive(Debug)]
pub struct Graphic {
    /// The number by which the picture is told from the others.
    pub id: u64,
    /// The pixels.
    pub pixels: Arc<Picture>,
    /// The row of the upper left corner.
    pub row: u16,
    /// The column of the upper left corner.
    pub col: u16,
    /// Whether the picture belongs to the alternate screen.
    pub alternate: bool,
}

/// What the picture file `data` shows: width, height and the bytes of the
/// pixels. None where it is no picture, or takes more than the limits allow.
pub uninterp spec fn picture_in(
    data: Seq<u8>,
    max_width: u32,
    max_height: u32,
    max_alloc: u64,
) -> Option<(u32, u32, Seq<u8>)>;

/// What a picture holds: width, height and the bytes of the pixels.
pub open spec fn picture_contents(picture: Option<Picture>) -> Option<(u32, u32, Seq<u8>)> {
    match picture {
        Some(p) => Some((p.width, p.height, p.rgba@)),
        None => None,
    }
}

/// `image::ImageReader::decode`, in the format that `image::guess_format` finds,
/// under the given limits, and `image::DynamicImage::to_rgba8` of what it
/// gives. The picture follows from the bytes and the limits alone, keeps
/// within the width and the height, and has four bytes for each pixel.
#[verifier::external_body]
fn decode_picture(data: &[u8], max_width: u32, max_height: u32, max_alloc: u64) -> (out: Option<
    Picture,
>)
    ensures
        picture_contents(out) == picture_in(data@, max_width, max_height, max_alloc),
        match out {
            Some(p) => p.width <= max_width && p.height <= max_height && p.rgba@.len() == p.width
                * p.height * 4,
            None => true,
        },
{
    let format = image::guess_format(data).ok()?;
    let mut reader = image::ImageReader::with_format(std::io::Cursor::new(data), format);
    let mut limits = image::Limits::default();
    limits.max_image_width = Some(max_width);
    limits.max_image_height = Some(max_height);
    limits.max_alloc = Some(max_alloc);
    reader.limits(limits);
    let pixels = reader.decode().ok()?.to_rgba8();
    Some(Picture { width: pixels.width(), height: pixels.height(), rgba: pixels.into_raw() })
}

/// The picture in a file, unless it is larger than the terminal shows.
pub fn decode(bytes: &[u8]) -> (out: Option<Picture>)
    ensures
        picture_contents(out) == picture_in(bytes@, MAX_WIDTH, MAX_HEIGHT, MAX_ALLOC),
        match out {
            Some(p) => p.width <= MAX_WIDTH && p.height <= MAX_HEIGHT && p.rgba@.len() == p.width
                * p.height * 4,
            None => true,
        },
{
    decode_picture(bytes, MAX_WIDTH, MAX_HEIGHT, MAX_ALLOC)
}

proof fn lemma_text_of_push(list: Seq<Piece>, p: Piece)
    ensures
        text_of(list.push(p)) == (match p {
            Piece::Text(t) => text_of(list) + t,
            Piece::Picture(_) => text_of(list),
        }),
        pictures_of(list.push(p)) == (match p {
            Piece::Text(_) => pictures_of(list),
            Piece::Picture(d) => pictures_of(list).push(d),
        }),
        decoded(list.push(p)) == (match p {
            Piece::Text(t) => decoded(list).push(Piece::Text(t)),
            Piece::Picture(d) => match base64_decoded(d) {
                Some(file) => decoded(list).push(Piece::Picture(file)),
                None => decoded(list),
            },
        }),
{
    assert(list.push(p).drop_last() =~= list);
}

/// The scanner's invariant holds in every state that it reaches: no command is
/// ever kept beyond its limit, whatever the output.
pub proof fn law_scanning_keeps_the_limit(state: ScanState, bytes: Seq<u8>)
    requires
        state.well_formed(),
    ensures
        scanned(state, bytes).state.well_formed(),
    decreases bytes.len(),
{
    if bytes.len() > 0 {
        law_scanning_keeps_the_limit(state, bytes.drop_last());
    }
}

proof fn lemma_with_text_twice(list: Seq<Piece>, a: Seq<u8>, b: Seq<u8>)
    ensures
        with_text(with_text(list, a), b) == with_text(list, a + b),
{
    if a.len() == 0 {
        assert(a + b =~= b);
    } else if b.len() == 0 {
        assert(a + b =~= a);
    } else {
        let once = with_text(list, a);
        if list.len() > 0 && list.last() is Text {
            let t = list.last()->Text_0;
            assert(t + a + b =~= t + (a + b));
            assert(once.drop_last() =~= list.drop_last());
        } else {
            assert(once.drop_last() =~= list);
        }
    }
}

proof fn lemma_merged_push(a: Seq<Piece>, list: Seq<Piece>, p: Piece)
    ensures
        merged(a + list.push(p)) == (match p {
            Piece::Text(t) => with_text(merged(a + list), t),
            Piece::Picture(data) => merged(a + list).push(Piece::Picture(data)),
        }),
{
    assert((a + list.push(p)).drop_last() =~= a + list);
}

proof fn lemma_lists_join(a: Seq<Piece>, b: Seq<Piece>)
    ensures
        text_of(a + b) == text_of(a) + text_of(b),
        pictures_of(a + b) == pictures_of(a) + pictures_of(b),
    decreases b.len(),
{
    if b.len() == 0 {
        assert(a + b =~= a);
        assert(text_of(a) + text_of(b) =~= text_of(a));
        assert(pictures_of(a) + pictures_of(b) =~= pictures_of(a));
    } else {
        assert((a + b).drop_last() =~= a + b.drop_last());
        lemma_lists_join(a, b.drop_last());
        assert(text_of(a + b) =~= text_of(a) + text_of(b));
        assert(pictures_of(a + b) =~= pictures_of(a) + pictures_of(b));
    }
}

proof fn lemma_merged_all(a: Seq<Piece>, p: Progress)
    ensures
        merged(a + p.all()) == with_text(merged(a + p.done), p.text),
        merged(decoded(a) + decoded(p.all())) == with_text(
            merged(decoded(a) + decoded(p.done)),
            p.text,
        ),
{
    if p.text.len() > 0 {
        lemma_merged_push(a, p.done, Piece::Text(p.text));
        lemma_text_of_push(p.done, Piece::Text(p.text));
        lemma_merged_push(decoded(a), decoded(p.done), Piece::Text(p.text));
    }
}

proof fn lemma_parts(state: ScanState, first: Seq<u8>, second: Seq<u8>)
    ensures
        scanned(state, first + second).state == scanned(
            scanned(state, first).state,
            second,
        ).state,
        merged(scanned(state, first + second).all()) == merged(
            scanned(state, first).all() + scanned(scanned(state, first).state, second).all(),
        ),
        merged(decoded(scanned(state, first + second).all())) == merged(
            decoded(scanned(state, first).all()) + decoded(
                scanned(scanned(state, first).state, second).all(),
            ),
        ),
    decreases second.len(),
{
    let none = Seq::<Piece>::empty();
    let mid = scanned(state, first);
    let a = mid.all();
    if second.len() == 0 {
        assert(first + second =~= first);
        assert(a + none =~= a);
        assert(decoded(a) + decoded(none) =~= decoded(a));
    } else {
        let both = first + second;
        assert(both.drop_last() =~= first + second.drop_last());
        lemma_parts(state, first, second.drop_last());
        let whole = scanned(state, both.drop_last());
        let part = scanned(mid.state, second.drop_last());
        let whole_next = scanned(state, both);
        let part_next = scanned(mid.state, second);
        assert forall|list: Seq<Piece>| #[trigger] (none + list) == list by {
            assert(none + list =~= list);
        }
        assert(decoded(none) == none);
        lemma_merged_all(none, whole);
        lemma_merged_all(none, whole_next);
        lemma_merged_all(a, part);
        lemma_merged_all(a, part_next);
        match part.state.emits(second.last()) {
            Emission::Text(t) => {
                lemma_with_text_twice(merged(none + whole.done), whole.text, t);
                lemma_with_text_twice(merged(a + part.done), part.text, t);
                lemma_with_text_twice(
                    merged(decoded(none) + decoded(whole.done)),
                    whole.text,
                    t,
                );
                lemma_with_text_twice(
                    merged(decoded(a) + decoded(part.done)),
                    part.text,
                    t,
                );
            },
            Emission::File(Some(data)) => {
                let p = Piece::Picture(data);
                lemma_merged_push(none, whole.all(), p);
                lemma_merged_push(a, part.all(), p);
                lemma_text_of_push(whole.all(), p);
                lemma_text_of_push(part.all(), p);
                if let Some(file) = base64_decoded(data) {
                    let shown = Piece::Picture(file);
                    lemma_merged_push(none, decoded(whole.all()), shown);
                    lemma_merged_push(decoded(a), decoded(part.all()), shown);
                }
            },
            Emission::File(None) => {},
        }
    }
}

proof fn lemma_merged_keeps(list: Seq<Piece>)
    ensures
        text_of(merged(list)) == text_of(list),
        pictures_of(merged(list)) == pictures_of(list),
    decreases list.len(),
{
    if list.len() > 0 {
        lemma_merged_keeps(list.drop_last());
        let before = merged(list.drop_last());
        match list.last() {
            Piece::Text(t) => {
                if t.len() == 0 {
                    assert(text_of(before) + t =~= text_of(before));
                } else if before.len() > 0 && before.last() is Text {
                    let last = before.last()->Text_0;
                    lemma_text_of_push(before.drop_last(), Piece::Text(last + t));
                    assert(text_of(before.drop_last()) + (last + t) =~= text_of(before) + t);
                } else {
                    lemma_text_of_push(before, Piece::Text(t));
                }
            },
            Piece::Picture(data) => lemma_text_of_push(before, Piece::Picture(data)),
        }
    }
}

/// Joining the runs of text keeps the text and the pictures, and leaves no two
/// pieces of text side by side.
pub proof fn law_merging_keeps_what_is_seen(list: Seq<Piece>)
    ensures
        text_of(merged(list)) == text_of(list),
        pictures_of(merged(list)) == pictures_of(list),
        forall|i: int|
            0 < i < merged(list).len() ==> !(merged(list)[i - 1] is Text && #[trigger] merged(
                list,
            )[i] is Text),
    decreases list.len(),
{
    lemma_merged_keeps(list);
    if list.len() > 0 {
        law_merging_keeps_what_is_seen(list.drop_last());
    }
}

/// It does not matter how the output is cut into parts: scanning two parts one
/// after the other leads to the state that scanning them at once leads to, and
/// to the same text and pictures in the same order, before the pictures are
/// decoded and after. Only where a text is cut into pieces may differ.
pub proof fn law_parts_do_not_matter(state: ScanState, first: Seq<u8>, second: Seq<u8>)
    ensures
        ({
            let whole = scanned(state, first + second);
            let one = scanned(state, first);
            let two = scanned(one.state, second);
            &&& whole.state == two.state
            &&& merged(whole.all()) == merged(one.all() + two.all())
            &&& merged(decoded(whole.all())) == merged(decoded(one.all()) + decoded(two.all()))
            &&& text_of(whole.all()) == text_of(one.all()) + text_of(two.all())
            &&& pictures_of(whole.all()) == pictures_of(one.all()) + pictures_of(two.all())
        }),
{
    let whole = scanned(state, first + second);
    let one = scanned(state, first);
    let two = scanned(one.state, second);
    lemma_parts(state, first, second);
    lemma_merged_keeps(whole.all());
    lemma_merged_keeps(one.all() + two.all());
    lemma_lists_join(one.all(), two.all());
}

/// Decoding the pictures leaves the text as it is.
pub proof fn law_decoding_keeps_the_text(list: Seq<Piece>)
    ensures
        text_of(decoded(list)) == text_of(list),
    decreases list.len(),
{
    if list.len() > 0 {
        law_decoding_keeps_the_text(list.drop_last());
        let before = decoded(list.drop_last());
        match list.last() {
            Piece::Text(t) => lemma_text_of_push(before, Piece::Text(t)),
            Piece::Picture(data) => match base64_decoded(data) {
                Some(file) => lemma_text_of_push(before, Piece::Picture(file)),
                None => {},
            },
        }
    }
}

/// Output without an escape comes out as it went in.
pub proof fn law_plain_output_is_kept(bytes: Seq<u8>)
    requires
        forall|i: int| 0 <= i < bytes.len() ==> bytes[i] != 27,
    ensures
        scanned(ScanState::start(), bytes).state == ScanState::start(),
        scanned(ScanState::start(), bytes).done == Seq::<Piece>::empty(),
        scanned(ScanState::start(), bytes).text == bytes,
    decreases bytes.len(),
{
    if bytes.len() > 0 {
        law_plain_output_is_kept(bytes.drop_last());
        assert(bytes.drop_last() + (Seq::<u8>::empty() + seq![bytes.last()]) =~= bytes);
    } else {
        assert(bytes =~= Seq::<u8>::empty());
    }
}

proof fn lemma_command_grows(payload: Seq<u8>)
    requires
        payload.len() <= MAX_OSC,
        forall|i: int| 0 <= i < payload.len() ==> payload[i] != 27 && payload[i] != 7,
    ensures
        scanned(ScanState { escape: false, osc: Some(Seq::empty()), discard: false }, payload) == (
        Progress {
            state: ScanState { escape: false, osc: Some(payload), discard: false },
            done: Seq::empty(),
            text: Seq::empty(),
        }),
    decreases payload.len(),
{
    let open = ScanState { escape: false, osc: Some(Seq::<u8>::empty()), discard: false };
    if payload.len() > 0 {
        let rest = payload.drop_last();
        assert forall|i: int| 0 <= i < rest.len() implies rest[i] != 27 && rest[i] != 7 by {
            assert(rest[i] == payload[i]);
        }
        lemma_command_grows(rest);
        assert(payload[payload.len() - 1] != 7);
        if rest.len() > 0 {
            assert(rest.last() == payload[payload.len() - 2]);
        }
        assert(rest.push(payload.last()) =~= payload);
        assert(Seq::<u8>::empty() + Seq::<u8>::empty() =~= Seq::<u8>::empty());
    } else {
        assert(payload =~= Seq::<u8>::empty());
    }
}

proof fn lemma_scanned_silently(state: ScanState, first: Seq<u8>, second: Seq<u8>)
    requires
        scanned(state, first).done == Seq::<Piece>::empty(),
        scanned(state, first).text == Seq::<u8>::empty(),
    ensures
        scanned(state, first + second) == scanned(scanned(state, first).state, second),
    decreases second.len(),
{
    if second.len() == 0 {
        assert(first + second =~= first);
    } else {
        assert((first + second).drop_last() =~= first + second.drop_last());
        lemma_scanned_silently(state, first, second.drop_last());
    }
}

/// A command that carries no file, such as one that sets the title, reaches
/// the terminal with its contents unchanged and a bell at its end, whichever
/// of the two terminators it had; one that carries a file to show becomes a
/// picture and no text.
pub proof fn law_commands_come_through(payload: Seq<u8>, bell: bool)
    requires
        payload.len() < MAX_OSC,
        forall|i: int| 0 <= i < payload.len() ==> payload[i] != 27 && payload[i] != 7,
    ensures
        ({
            let end = if bell {
                seq![7u8]
            } else {
                seq![27u8, 92u8]
            };
            let out = scanned(ScanState::start(), seq![27u8, 93u8] + payload + end);
            &&& out.state == ScanState::start()
            &&& !file_prefix().is_prefix_of(payload) ==> out.all() == seq![
                Piece::Text(seq![27u8, 93u8] + payload + seq![7u8]),
            ]
            &&& file_prefix().is_prefix_of(payload) ==> out.all() == (match shown_file(payload) {
                Some(data) => seq![Piece::Picture(data)],
                None => Seq::empty(),
            })
        }),
{
    let start = ScanState::start();
    let open = ScanState { escape: false, osc: Some(Seq::<u8>::empty()), discard: false };
    let head = seq![27u8, 93u8];
    let none = Seq::<u8>::empty();
    let end = if bell {
        seq![7u8]
    } else {
        seq![27u8, 92u8]
    };
    let whole = head + payload + end;
    assert(none + none =~= none);
    assert(head.drop_last() =~= seq![27u8]);
    assert(seq![27u8].drop_last() =~= none);
    reveal_with_fuel(scanned, 3);
    assert(scanned(start, head) == Progress { state: open, done: Seq::empty(), text: none });
    lemma_command_grows(payload);
    lemma_scanned_silently(start, head, payload);
    let inside = scanned(start, head + payload);
    assert(inside.state == ScanState { escape: false, osc: Some(payload), discard: false });
    if bell {
        assert(whole.drop_last() =~= head + payload);
        if payload.len() > 0 {
            assert(payload.last() != 27);
        }
        assert(none + (head + payload + seq![7u8]) =~= head + payload + seq![7u8]);
    } else {
        assert(whole.drop_last() =~= (head + payload).push(27u8));
        assert((head + payload).push(27u8).drop_last() =~= head + payload);
        if payload.len() > 0 {
            assert(payload.last() != 27);
        }
        assert(payload.push(27u8).drop_last() =~= payload);
        assert(none + (head + payload + seq![7u8]) =~= head + payload + seq![7u8]);
    }
}

proof fn lemma_first_byte(s: Seq<u8>, x: u8, k: int)
    requires
        0 <= k <= s.len(),
        forall|j: int| 0 <= j < k ==> s[j] != x,
        k < s.len() ==> s[k] == x,
    ensures
        first_byte(s, x) == k,
    decreases s.len(),
{
    if s.len() > 0 && s[0] != x {
        assert forall|j: int| 0 <= j < k - 1 implies s.skip(1)[j] != x by {
            assert(s.skip(1)[j] == s[j + 1]);
        }
        lemma_first_byte(s.skip(1), x, k - 1);
    }
}

/// The bytes of `1337;File=`, with which a command carries a file.
pub open spec fn file_command(options: Seq<u8>) -> Seq<u8> {
    seq![49u8, 51u8, 51u8, 55u8, 59u8, 70u8, 105u8, 108u8, 101u8, 61u8] + options
}

/// A command with one of the two ends that it can have: a bell, or an escape and a
/// backslash.
pub open spec fn command(payload: Seq<u8>, bell: bool) -> Seq<u8> {
    seq![27u8, 93u8] + payload + (if bell {
        seq![7u8]
    } else {
        seq![27u8, 92u8]
    })
}

/// Whether bytes can stand inside a command: neither a bell nor an escape is among
/// them.
pub open spec fn inside_command(bytes: Seq<u8>) -> bool {
    forall|i: int| 0 <= i < bytes.len() ==> bytes[i] != 27 && bytes[i] != 7
}

/// A file command with `inline=1` among its options, wherever it stands there, shows
/// exactly what follows the colon, and puts nothing else into the output.
pub proof fn law_inline_files_are_shown(a: Seq<u8>, b: Seq<u8>, data: Seq<u8>, bell: bool)
    requires
        !a.contains(58) && !b.contains(58),
        inside_command(a) && inside_command(b) && inside_command(data),
        a.len() + b.len() + data.len() + 19 < 8_388_608,
    ensures
        ({
            let inline = seq![105u8, 110u8, 108u8, 105u8, 110u8, 101u8, 61u8, 49u8];
            let payload = file_command(a + inline + b) + seq![58u8] + data;
            let out = scanned(ScanState::start(), command(payload, bell));
            &&& out.state == ScanState::start()
            &&& out.all() == seq![Piece::Picture(data)]
            &&& decoded(out.all()) == (match base64_decoded(data) {
                Some(file) => seq![Piece::Picture(file)],
                None => Seq::empty(),
            })
        }),
{
    let inline = seq![105u8, 110u8, 108u8, 105u8, 110u8, 101u8, 61u8, 49u8];
    let options = file_command(a + inline + b);
    let payload = options + seq![58u8] + data;
    let n = options.len() as int;
    assert forall|i: int| 0 <= i < n implies options[i] != 58 && options[i] != 27 && options[i]
        != 7 by {
        if 10 <= i < 10 + a.len() {
            assert(options[i] == a[i - 10]);
            assert(a.contains(options[i]));
        } else if i >= 18 + a.len() {
            assert(options[i] == b[i - 18 - a.len()]);
            assert(b.contains(options[i]));
        }
    }
    assert forall|i: int| 0 <= i < payload.len() implies payload[i] != 27 && payload[i] != 7 by {
        if i < n {
            assert(payload[i] == options[i]);
        } else if i > n {
            assert(payload[i] == data[i - n - 1]);
        }
    }
    assert(payload[n] == 58);
    assert forall|j: int| 0 <= j < n implies payload[j] != 58 by {
        assert(payload[j] == options[j]);
    }
    lemma_first_byte(payload, 58, n);
    assert(payload.take(n) =~= options);
    assert(payload.skip(n + 1) =~= data);
    assert(options.subrange(10int + a.len(), 18int + a.len()) =~= inline);
    assert(found_at(options, inline_option(), 10int + a.len()));
    assert(file_prefix().is_prefix_of(payload)) by {
        assert(payload.subrange(0, 10) =~= file_prefix());
    }
    law_commands_come_through(payload, bell);
    lemma_text_of_push(Seq::empty(), Piece::Picture(data));
    assert(Seq::<Piece>::empty().push(Piece::Picture(data)) =~= seq![Piece::Picture(data)]);
    if let Some(file) = base64_decoded(data) {
        assert(Seq::<Piece>::empty().push(Piece::Picture(file)) =~= seq![Piece::Picture(file)]);
    }
}

/// A file command whose options nowhere hold `inline=1`, or that has no colon, shows
/// nothing and puts nothing into the output.
pub proof fn law_other_files_are_dropped(options: Seq<u8>, data: Seq<u8>, bell: bool)
    requires
        !options.contains(58),
        inside_command(options) && inside_command(data),
        options.len() + data.len() + 11 < 8_388_608,
        forall|i: int|
            0 <= i <= file_command(options).len() - 8 ==> #[trigger] file_command(
                options,
            ).subrange(i, i + 8) != seq![105u8, 110u8, 108u8, 105u8, 110u8, 101u8, 61u8, 49u8],
    ensures
        ({
            let payload = file_command(options) + seq![58u8] + data;
            let out = scanned(ScanState::start(), command(payload, bell));
            &&& out.state == ScanState::start()
            &&& out.all() == Seq::<Piece>::empty()
            &&& scanned(ScanState::start(), command(file_command(options), bell)).all() == Seq::<
                Piece,
            >::empty()
        }),
{
    let head = file_command(options);
    let payload = head + seq![58u8] + data;
    let n = head.len() as int;
    assert forall|i: int| 0 <= i < n implies head[i] != 58 && head[i] != 27 && head[i] != 7 by {
        if i >= 10 {
            assert(head[i] == options[i - 10]);
            assert(options.contains(head[i]));
        }
    }
    assert forall|i: int| 0 <= i < payload.len() implies payload[i] != 27 && payload[i] != 7 by {
        if i < n {
            assert(payload[i] == head[i]);
        } else if i > n {
            assert(payload[i] == data[i - n - 1]);
        }
    }
    assert(payload[n] == 58);
    assert forall|j: int| 0 <= j < n implies payload[j] != 58 by {
        assert(payload[j] == head[j]);
    }
    lemma_first_byte(payload, 58, n);
    lemma_first_byte(head, 58, n);
    assert(payload.take(n) =~= head);
    assert forall|i: int| !(#[trigger] found_at(head, inline_option(), i)) by {
        if 0 <= i && i + 8 <= head.len() {
            assert(head.subrange(i, i + 8) != inline_option());
        }
    }
    assert(payload.subrange(0, 10) =~= file_prefix());
    assert(head.subrange(0, 10) =~= file_prefix());
    law_commands_come_through(payload, bell);
    law_commands_come_through(head, bell);
}

/// Any other command, such as one that sets the title, comes through with its
/// contents as they were and a bell at its end.
pub proof fn law_other_commands_come_through(payload: Seq<u8>, bell: bool)
    requires
        inside_command(payload),
        payload.len() < 8_388_608,
        payload.len() < 10 || payload.take(10) != file_command(Seq::empty()),
    ensures
        ({
            let out = scanned(ScanState::start(), command(payload, bell));
            &&& out.state == ScanState::start()
            &&& out.all() == seq![Piece::Text(seq![27u8, 93u8] + payload + seq![7u8])]
        }),
{
    assert(file_command(Seq::empty()) =~= file_prefix());
    if file_prefix().is_prefix_of(payload) {
        assert(payload.take(10) =~= file_prefix());
    }
    law_commands_come_through(payload, bell);
}

proof fn lemma_discarded(rest: Seq<u8>)
    requires
        inside_command(rest),
    ensures
        scanned(ScanState { escape: false, osc: Some(Seq::empty()), discard: true }, rest) == (
        Progress {
            state: ScanState { escape: false, osc: Some(Seq::empty()), discard: true },
            done: Seq::empty(),
            text: Seq::empty(),
        }),
    decreases rest.len(),
{
    if rest.len() > 0 {
        let before = rest.drop_last();
        assert forall|i: int| 0 <= i < before.len() implies before[i] != 27 && before[i] != 7 by {
            assert(before[i] == rest[i]);
        }
        lemma_discarded(before);
        assert(rest.last() == rest[rest.len() - 1]);
        assert(Seq::<u8>::empty() + Seq::<u8>::empty() =~= Seq::<u8>::empty());
    }
}

/// A command of more than eight mebibytes is dropped as a whole, and what follows it
/// is read as if it had not been there.
pub proof fn law_endless_commands_are_dropped(payload: Seq<u8>, bell: bool)
    requires
        inside_command(payload),
        payload.len() > 8_388_608,
    ensures
        scanned(ScanState::start(), command(payload, bell)).state == ScanState::start(),
        scanned(ScanState::start(), command(payload, bell)).all() == Seq::<Piece>::empty(),
{
    let start = ScanState::start();
    let none = Seq::<u8>::empty();
    let head = seq![27u8, 93u8];
    let open = ScanState { escape: false, osc: Some(none), discard: false };
    let closed = ScanState { escape: false, osc: Some(none), discard: true };
    let m = 8_388_608int;
    let kept = payload.take(m);
    let rest = payload.skip(m + 1);
    assert(none + none =~= none);
    assert(head.drop_last() =~= seq![27u8]);
    assert(seq![27u8].drop_last() =~= none);
    reveal_with_fuel(scanned, 3);
    assert(scanned(start, head) == Progress { state: open, done: Seq::empty(), text: none });
    assert forall|i: int| 0 <= i < kept.len() implies kept[i] != 27 && kept[i] != 7 by {
        assert(kept[i] == payload[i]);
    }
    assert forall|i: int| 0 <= i < rest.len() implies rest[i] != 27 && rest[i] != 7 by {
        assert(rest[i] == payload[m + 1 + i]);
    }
    lemma_command_grows(kept);
    lemma_scanned_silently(start, head, kept);
    let full = head + kept;
    let over = full.push(payload[m]);
    assert(over.drop_last() =~= full);
    assert(kept.last() == payload[m - 1]);
    assert(scanned(start, over) == Progress { state: closed, done: Seq::empty(), text: none });
    lemma_discarded(rest);
    lemma_scanned_silently(start, over, rest);
    let all = head + payload;
    assert(over + rest =~= all);
    assert(scanned(start, all) == Progress { state: closed, done: Seq::empty(), text: none });
    if bell {
        assert(command(payload, bell).drop_last() =~= all);
    } else {
        assert(command(payload, bell).drop_last() =~= all.push(27u8));
        assert(all.push(27u8).drop_last() =~= all);
    }
}

proof fn lemma_escapes_held_back(bytes: Seq<u8>)
    requires
        forall|i: int| 0 < i < bytes.len() ==> !(bytes[i - 1] == 27 && #[trigger] bytes[i] == 93),
    ensures
        ({
            let out = scanned(ScanState::start(), bytes);
            let pending = bytes.len() > 0 && bytes.last() == 27;
            &&& out.state == (ScanState { escape: pending, osc: None, discard: false })
            &&& out.done == Seq::<Piece>::empty()
            &&& out.text == (if pending {
                bytes.drop_last()
            } else {
                bytes
            })
        }),
    decreases bytes.len(),
{
    if bytes.len() > 0 {
        let before = bytes.drop_last();
        assert forall|i: int| 0 < i < before.len() implies !(before[i - 1] == 27
            && #[trigger] before[i] == 93) by {
            assert(before[i] == bytes[i]);
        }
        lemma_escapes_held_back(before);
        let out = scanned(ScanState::start(), bytes);
        if before.len() > 0 {
            assert(before.last() == bytes[bytes.len() - 2]);
            assert(bytes.last() == bytes[bytes.len() - 1]);
        }
        let pending = bytes.last() == 27;
        assert(out.text =~= (if pending {
            bytes.drop_last()
        } else {
            bytes
        }));
    }
}

/// Output in which no command starts comes out as it went in, with every other
/// escape sequence in it.
pub proof fn law_other_sequences_come_through(bytes: Seq<u8>)
    requires
        forall|i: int| 0 < i < bytes.len() ==> !(bytes[i - 1] == 27 && #[trigger] bytes[i] == 93),
        bytes.len() > 0 ==> bytes.last() != 27,
    ensures
        scanned(ScanState::start(), bytes).state == ScanState::start(),
        bytes.len() > 0 ==> scanned(ScanState::start(), bytes).all() == seq![Piece::Text(bytes)],
{
    lemma_escapes_held_back(bytes);
    assert(Seq::<Piece>::empty().push(Piece::Text(bytes)) =~= seq![Piece::Text(bytes)]);
}

/// The pictures that are decoded have at most 4096 pixels on a side, and decoding
/// one takes at most 32 mebibytes.
pub proof fn law_picture_limits()
    ensures
        MAX_WIDTH == 4096 && MAX_HEIGHT == 4096,
        MAX_ALLOC == 32 * 1024 * 1024,
        MAX_OSC == 8 * 1024 * 1024,
{
}

/// A picture is shown as what its encoding stands for, at its place among the pieces. One
/// whose encoding is broken is left out, and text stays as it is.
pub proof fn law_pictures_are_decoded(list: Seq<Piece>, data: Seq<u8>, text: Seq<u8>)
    ensures
        decoded(Seq::empty()).len() == 0,
        decoded(list.push(Piece::Text(text))) == decoded(list).push(Piece::Text(text)),
        base64_decoded(data) matches Some(file) ==> decoded(list.push(Piece::Picture(data)))
            == decoded(list).push(Piece::Picture(file)),
        base64_decoded(data) is None ==> decoded(list.push(Piece::Picture(data))) == decoded(list),
{
    assert(list.push(Piece::Text(text)).drop_last() =~= list);
    assert(list.push(Piece::Picture(data)).drop_last() =~= list);
}

/// Texts that follow each other become one, with nothing between them. A picture stands
/// between texts, and an empty text is none.
pub proof fn law_texts_in_a_row_are_one(list: Seq<Piece>, a: Seq<u8>, b: Seq<u8>, data: Seq<u8>)
    ensures
        merged(Seq::empty()).len() == 0,
        merged(list.push(Piece::Picture(data))) == merged(list).push(Piece::Picture(data)),
        merged(list.push(Piece::Text(Seq::empty()))) == merged(list),
        a.len() > 0 ==> merged(list.push(Piece::Text(a)).push(Piece::Text(b))) == merged(
            list.push(Piece::Text(a + b)),
        ),
        a.len() > 0 ==> merged(list.push(Piece::Picture(data)).push(Piece::Text(a))) == merged(
            list,
        ).push(Piece::Picture(data)).push(Piece::Text(a)),
        a.len() > 0 ==> merged(seq![Piece::Text(a)]) == seq![Piece::Text(a)],
{
    let none = Piece::Text(Seq::empty());
    assert(list.push(none).drop_last() =~= list);
    assert(list.push(Piece::Picture(data)).drop_last() =~= list);
    assert(list.push(Piece::Text(a)).drop_last() =~= list);
    assert(list.push(Piece::Text(a + b)).drop_last() =~= list);
    assert(list.push(Piece::Text(a)).push(Piece::Text(b)).drop_last() =~= list.push(
        Piece::Text(a),
    ));
    assert(list.push(Piece::Picture(data)).push(Piece::Text(a)).drop_last() =~= list.push(
        Piece::Picture(data),
    ));
    assert(seq![Piece::Text(a)].drop_last() =~= Seq::empty());
    let m = merged(list);
    let p = m.push(Piece::Picture(data));
    assert(p.last() == Piece::Picture(data));
    if a.len() > 0 {
        let one = with_text(m, a);
        let first = list.push(Piece::Text(a));
        assert(merged(first) == one);
        assert(first.push(Piece::Text(b)).last() == Piece::Text(b));
        assert(merged(first.push(Piece::Text(b))) == with_text(one, b));
        let shown = list.push(Piece::Picture(data));
        assert(merged(shown) == p);
        assert(shown.push(Piece::Text(a)).last() == Piece::Text(a));
        assert(merged(shown.push(Piece::Text(a))) == with_text(p, a));
        assert(one.len() > 0 && one.last() is Text);
        if b.len() == 0 {
            assert(a + b =~= a);
        } else if m.len() > 0 && m.last() is Text {
            let t = m.last()->Text_0;
            assert((t + a) + b =~= t + (a + b));
            assert(one.drop_last() =~= m.drop_last());
            assert(with_text(one, b) =~= with_text(m, a + b));
        } else {
            assert(one.drop_last() =~= m);
            assert(with_text(one, b) =~= with_text(m, a + b));
        }
        assert(Seq::<Piece>::empty().push(Piece::Text(a)) =~= seq![Piece::Text(a)]);
    }
}

/// The model of a piece of output tells text from pictures and holds its bytes.
pub proof fn law_models_hold_the_piece(
    raw: RawToken,
    token: Token,
    raws: Seq<RawToken>,
    tokens: Seq<Token>,
    i: int,
)
    ensures
        raw matches RawToken::Text(v) ==> raw@ == Piece::Text(v@),
        raw matches RawToken::Encoded(v) ==> raw@ == Piece::Picture(v@),
        token matches Token::Text(v) ==> token@ == Piece::Text(v@),
        token matches Token::Image(v) ==> token@ == Piece::Picture(v@),
        raw_pieces(raws).len() == raws.len() && pieces(tokens).len() == tokens.len(),
        0 <= i < raws.len() ==> raw_pieces(raws)[i] == raws[i]@,
        0 <= i < tokens.len() ==> pieces(tokens)[i] == tokens[i]@,
{
}

} // verus!
