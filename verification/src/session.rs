//! What a pane runs, and what of it the rest of the terminal sees.

use crate::config::profile::{
    remote_label, serial_label, text_copy, RemoteModel, RemoteProfile, SerialModel, SerialProfile,
};
use crate::config::settings::GroupColors;
use crate::text::{
    blank, chars_of, decimal, digit, digit_of, is_blank, optional, push_decimal, string_of, trim,
    trimmed,
};
use vstd::prelude::*;

verus! {

/// What a session is: a local shell, a connection to a host, or a serial port.
#[derive(Debug)]
pub enum SessionKind {
    /// A local shell, by its name or path.
    Local(String),
    /// A shell on a host.
    Ssh(RemoteProfile),
    /// The files of a host.
    Sftp(RemoteProfile),
    /// A serial port.
    Serial(SerialProfile),
}

/// What a session is.
pub enum KindModel {
    Local(Seq<char>),
    Ssh(RemoteModel),
    Sftp(RemoteModel),
    Serial(SerialModel),
}

impl View for SessionKind {
    type V = KindModel;

    open spec fn view(&self) -> KindModel {
        match self {
            SessionKind::Local(shell) => KindModel::Local(shell@),
            SessionKind::Ssh(p) => KindModel::Ssh(p@),
            SessionKind::Sftp(p) => KindModel::Sftp(p@),
            SessionKind::Serial(p) => KindModel::Serial(p@),
        }
    }
}

/// What the sessions of a list are.
pub open spec fn kind_models(list: Seq<SessionKind>) -> Seq<KindModel> {
    list.map_values(|k: SessionKind| k@)
}

/// How a session stands.
#[derive(Clone, Copy, Debug, PartialEq, Eq, Structural)]
pub enum SessionStatus {
    /// It runs.
    Live,
    /// Nothing runs in it.
    Detached,
    /// It broke off.
    Lost,
}

/// A colour of a tab.
#[derive(Clone, Copy, Debug, PartialEq, Eq, Structural)]
pub struct TagColor {
    pub red: u8,
    pub green: u8,
    pub blue: u8,
}

impl Clone for SessionKind {
    fn clone(&self) -> (out: SessionKind)
        ensures
            out@ == self@,
    {
        match self {
            SessionKind::Local(shell) => SessionKind::Local(shell.clone()),
            SessionKind::Ssh(p) => SessionKind::Ssh(p.duplicate()),
            SessionKind::Sftp(p) => SessionKind::Sftp(p.duplicate()),
            SessionKind::Serial(p) => SessionKind::Serial(p.duplicate()),
        }
    }
}

/// `user@host`, or the host alone.
pub open spec fn destination(p: RemoteModel) -> Seq<char> {
    if p.user.len() == 0 {
        p.host
    } else {
        p.user + "@"@ + p.host
    }
}

/// `user@host:port`, where a connection goes.
pub open spec fn address(p: RemoteModel) -> Seq<char> {
    destination(p) + ":"@ + decimal(p.port as nat)
}

/// `user@host:port`, where a connection goes.
pub fn address_of(p: &RemoteProfile) -> (out: String)
    ensures
        out@ == address(p@),
{
    let mut out: String = p.destination();
    out.append(":");
    push_decimal(&mut out, p.port as u64);
    assert(out@ =~= address(p@));
    out
}

/// What a session is called: a local shell by its name or path, a connection by
/// its own name.
pub open spec fn kind_name(kind: KindModel) -> Seq<char> {
    match kind {
        KindModel::Local(shell) => shell,
        KindModel::Ssh(p) => remote_label(p),
        KindModel::Sftp(p) => remote_label(p),
        KindModel::Serial(p) => serial_label(p),
    }
}

/// What a session is called.
pub fn kind_label(kind: &SessionKind) -> (out: String)
    ensures
        out@ == kind_name(kind@),
{
    match kind {
        SessionKind::Local(shell) => text_copy(shell.as_str()),
        SessionKind::Ssh(p) => p.label(),
        SessionKind::Sftp(p) => p.label(),
        SessionKind::Serial(p) => p.label(),
    }
}

/// What a session connects to. A local shell starts a program rather than
/// connecting to anything, so it has no target.
pub open spec fn target(kind: KindModel) -> Option<Seq<char>> {
    match kind {
        KindModel::Serial(p) => Some(trimmed(p.port) + " @ "@ + decimal(p.baud as nat) + " bps"@),
        KindModel::Ssh(p) => Some(address(p)),
        KindModel::Sftp(p) => Some(address(p)),
        KindModel::Local(_) => None,
    }
}

/// What a session connects to, for its console notice.
pub fn connect_target(kind: &SessionKind) -> (out: Option<String>)
    ensures
        match out {
            Some(text) => target(kind@) == Some(text@),
            None => target(kind@) is None,
        },
{
    match kind {
        SessionKind::Serial(p) => {
            let chars: Vec<char> = chars_of(p.port.as_str());
            let mut out: String = string_of(trim(chars.as_slice()));
            out.append(" @ ");
            push_decimal(&mut out, p.baud as u64);
            out.append(" bps");
            assert(out@ =~= trimmed(p.port@) + " @ "@ + decimal(p.baud as nat) + " bps"@);
            Some(out)
        },
        SessionKind::Ssh(p) => Some(address_of(p)),
        SessionKind::Sftp(p) => Some(address_of(p)),
        SessionKind::Local(_) => None,
    }
}

/// The byte that two hexadecimal digits stand for.
pub open spec fn hex_byte(high: char, low: char) -> u8 {
    (digit(high, 16)->0 * 16 + digit(low, 16)->0) as u8
}

/// Whether a text has the form `#rrggbb`: a hash and six hexadecimal digits.
pub open spec fn is_tag_color(t: Seq<char>) -> bool {
    t.len() == 7 && t[0] == '#' && forall|i: int|
        1 <= i < 7 ==> digit(#[trigger] t[i], 16) is Some
}

/// The colour that `#rrggbb` stands for. Anything else means no colour.
pub open spec fn tag_color(hex: Seq<char>) -> Option<TagColor> {
    let t = trimmed(hex);
    if is_tag_color(t) {
        Some(
            TagColor {
                red: hex_byte(t[1], t[2]),
                green: hex_byte(t[3], t[4]),
                blue: hex_byte(t[5], t[6]),
            },
        )
    } else {
        None
    }
}

/// The byte that two characters stand for, where they are hexadecimal digits.
fn parse_hex_byte(high: char, low: char) -> (out: Option<u8>)
    ensures
        match out {
            Some(byte) => digit(high, 16) is Some && digit(low, 16) is Some && byte == hex_byte(
                high,
                low,
            ),
            None => digit(high, 16) is None || digit(low, 16) is None,
        },
{
    match (digit_of(high, 16), digit_of(low, 16)) {
        (Some(h), Some(l)) => Some((h * 16 + l) as u8),
        _ => None,
    }
}

/// Parses `#rrggbb` into a colour. Empty or malformed input means no colour.
pub fn parse_tag_color(hex: &str) -> (out: Option<TagColor>)
    ensures
        out == tag_color(hex@),
{
    let chars: Vec<char> = chars_of(hex);
    let t = trim(chars.as_slice());
    if t.len() != 7 || t[0] != '#' {
        return None;
    }
    match (
        parse_hex_byte(t[1], t[2]),
        parse_hex_byte(t[3], t[4]),
        parse_hex_byte(t[5], t[6]),
    ) {
        (Some(red), Some(green), Some(blue)) => {
            assert(is_tag_color(t@));
            Some(TagColor { red, green, blue })
        },
        _ => None,
    }
}

/// A tag colour holds nothing but a hash and digits: a sign, a blank or a digit
/// too many means no colour.
pub proof fn law_tag_colors_are_hash_and_digits(hex: Seq<char>, i: int)
    requires
        tag_color(hex) is Some,
        1 <= i < trimmed(hex).len(),
    ensures
        trimmed(hex).len() == 7,
        trimmed(hex)[0] == '#',
        digit(trimmed(hex)[i], 16) is Some,
{
}

/// The colour of a session: that of its connection, else that of its group. A
/// local shell has neither.
pub open spec fn color_of(kind: KindModel, groups: Map<Seq<char>, Seq<char>>) -> Option<TagColor> {
    match kind {
        KindModel::Ssh(p) => own_or_group(p.color, p.group, groups),
        KindModel::Sftp(p) => own_or_group(p.color, p.group, groups),
        KindModel::Serial(p) => own_or_group(p.color, p.group, groups),
        KindModel::Local(_) => None,
    }
}

/// The colour of a connection, else that of its group.
pub open spec fn own_or_group(
    color: Seq<char>,
    group: Seq<char>,
    groups: Map<Seq<char>, Seq<char>>,
) -> Option<TagColor> {
    if tag_color(color) is Some {
        tag_color(color)
    } else if groups.contains_key(group) {
        tag_color(groups[group])
    } else {
        None
    }
}

/// The colour of a connection, else that of its group.
fn pick_color(color: &str, group: &str, groups: &GroupColors) -> (out: Option<TagColor>)
    ensures
        out == own_or_group(color@, group@, groups@),
{
    let own: Option<TagColor> = parse_tag_color(color);
    if own.is_some() {
        return own;
    }
    match groups.get(group) {
        Some(hex) => parse_tag_color(hex.as_str()),
        None => None,
    }
}

/// The tag colour for a session: the connection's own colour if it has one,
/// otherwise its group's. Local sessions have neither.
pub fn connection_color(kind: &SessionKind, groups: &GroupColors) -> (out: Option<TagColor>)
    ensures
        out == color_of(kind@, groups@),
{
    match kind {
        SessionKind::Ssh(p) => pick_color(p.color.as_str(), p.group.as_str(), groups),
        SessionKind::Sftp(p) => pick_color(p.color.as_str(), p.group.as_str(), groups),
        SessionKind::Serial(p) => pick_color(p.color.as_str(), p.group.as_str(), groups),
        SessionKind::Local(_) => None,
    }
}

/// What the console of a pane says before a connection.
#[derive(Debug, PartialEq, Eq)]
pub struct Announcement {
    /// Empty lines keep it apart from what the screen shows already.
    pub separator: bool,
    /// The line that says what is connected to.
    pub line: Option<String>,
}

/// What the console of a pane says before a connection, by what its screen shows
/// and what is connected to. A screen with nothing on it is left alone, so that
/// a new pane does not start with empty lines.
pub fn announce(screen: &str, target: &Option<String>) -> (out: Announcement)
    ensures
        out.separator == !blank(screen@),
        optional(out.line) == (match *target {
            Some(t) => Some("connect to "@ + t@),
            None => None,
        }),
{
    let separator = !is_blank(chars_of(screen).as_slice());
    let line: Option<String> = match target {
        Some(t) => {
            let mut text = text_copy("connect to ");
            text.append(t.as_str());
            Some(text)
        },
        None => None,
    };
    Announcement { separator, line }
}

/// What the console of a pane says of a connection that failed.
pub fn failure_line(message: &str) -> (out: String)
    ensures
        out@ == "[错误] connect failed: "@ + message@,
{
    let mut out = text_copy("[错误] connect failed: ");
    out.append(message);
    out
}

/// The hexadecimal digit of a number below sixteen, in one of the two forms that a
/// letter has.
pub open spec fn hex_letter(d: int, upper: bool) -> char {
    (if d < 10 {
        48 + d
    } else if upper {
        55 + d
    } else {
        87 + d
    }) as char
}

/// `#rrggbb` is the colour with those parts, in letters of either case and with white
/// space around it.
pub proof fn law_tag_colors_are_read(
    before: Seq<char>,
    color: TagColor,
    upper: bool,
    behind: Seq<char>,
)
    requires
        blank(before) && blank(behind),
    ensures
        tag_color(
            before + seq![
                '#',
                hex_letter(color.red as int / 16, upper),
                hex_letter(color.red as int % 16, upper),
                hex_letter(color.green as int / 16, upper),
                hex_letter(color.green as int % 16, upper),
                hex_letter(color.blue as int / 16, upper),
                hex_letter(color.blue as int % 16, upper),
            ] + behind,
        ) == Some(color),
{
    let t = seq![
        '#',
        hex_letter(color.red as int / 16, upper),
        hex_letter(color.red as int % 16, upper),
        hex_letter(color.green as int / 16, upper),
        hex_letter(color.green as int % 16, upper),
        hex_letter(color.blue as int / 16, upper),
        hex_letter(color.blue as int % 16, upper),
    ];
    lemma_hex_letter(color.red as int / 16, upper);
    lemma_hex_letter(color.red as int % 16, upper);
    lemma_hex_letter(color.green as int / 16, upper);
    lemma_hex_letter(color.green as int % 16, upper);
    lemma_hex_letter(color.blue as int / 16, upper);
    lemma_hex_letter(color.blue as int % 16, upper);
    crate::text::law_trimming_keeps_the_ink(before, t, behind);
    assert(t[1] == hex_letter(color.red as int / 16, upper));
    assert(is_tag_color(t));
}

proof fn lemma_hex_letter(d: int, upper: bool)
    requires
        0 <= d < 16,
    ensures
        digit(hex_letter(d, upper), 16) == Some(d),
        !crate::text::white(hex_letter(d, upper)),
{
}

/// Anything else is no colour: another length, no hash, or a character that is no
/// hexadecimal digit.
pub proof fn law_nothing_else_is_a_tag_color(hex: Seq<char>, i: int)
    requires
        trimmed(hex).len() != 7 || trimmed(hex)[0] != '#' || (1 <= i < 7 && !('0'
            <= trimmed(hex)[i] <= '9') && !('a' <= trimmed(hex)[i] <= 'f') && !('A'
            <= trimmed(hex)[i] <= 'F')),
    ensures
        tag_color(hex) is None,
{
}

/// The colour of a session is its own where it has one, whatever its group; else that
/// of its group, if there is one. A local shell has none.
pub proof fn law_own_colors_come_first(kind: KindModel, groups: Map<Seq<char>, Seq<char>>)
    ensures
        match kind {
            KindModel::Local(_) => color_of(kind, groups) is None,
            KindModel::Ssh(p) | KindModel::Sftp(p) => {
                &&& tag_color(p.color) is Some ==> color_of(kind, groups) == tag_color(p.color)
                &&& tag_color(p.color) is None && groups.contains_key(p.group) ==> color_of(
                    kind,
                    groups,
                ) == tag_color(groups[p.group])
                &&& tag_color(p.color) is None && !groups.contains_key(p.group) ==> color_of(
                    kind,
                    groups,
                ) is None
            },
            KindModel::Serial(p) => {
                &&& tag_color(p.color) is Some ==> color_of(kind, groups) == tag_color(p.color)
                &&& tag_color(p.color) is None && groups.contains_key(p.group) ==> color_of(
                    kind,
                    groups,
                ) == tag_color(groups[p.group])
                &&& tag_color(p.color) is None && !groups.contains_key(p.group) ==> color_of(
                    kind,
                    groups,
                ) is None
            },
        },
{
}

/// The address of a connection reads back as what it was made of: as a jump host it
/// names the same user, the same host and the same port.
pub proof fn law_addresses_read_back(p: RemoteModel)
    requires
        !p.user.contains('@') && !p.user.contains(',') && !crate::text::any_white(p.user),
        p.host.len() > 0,
        !p.host.contains('@') && !p.host.contains(',') && !p.host.contains(':')
            && !crate::text::any_white(p.host),
    ensures
        crate::config::ssh::jump_of(address(p)) == Some(
            crate::config::ssh::plain_jump(p.user, p.host, p.port),
        ),
        p.user.len() == 0 ==> address(p) == p.host + seq![':'] + decimal(p.port as nat),
        p.user.len() > 0 ==> address(p) == p.user + seq!['@'] + p.host + seq![':'] + decimal(
            p.port as nat,
        ),
{
    let none = Seq::<char>::empty();
    crate::config::ssh::law_jumps_are_read_part_by_part(
        none,
        p.user,
        p.host,
        p.port,
        none,
        none,
    );
    reveal_strlit("@");
    reveal_strlit(":");
    assert("@"@ =~= seq!['@']);
    assert(":"@ =~= seq![':']);
    let alone = p.host + seq![':'] + decimal(p.port as nat);
    let with = p.user + seq!['@'] + p.host + seq![':'] + decimal(p.port as nat);
    assert(none + alone + none + none =~= alone);
    assert(none + with + none + none =~= with);
    if p.user.len() == 0 {
        assert(p.user =~= none);
    }
}

/// What is connected to, in the console: the address of a host, the device and the
/// speed of a serial line, and nothing for a local shell.
pub proof fn law_targets(kind: KindModel)
    ensures
        match kind {
            KindModel::Local(_) => target(kind) is None,
            KindModel::Ssh(p) | KindModel::Sftp(p) => target(kind) == Some(address(p)),
            KindModel::Serial(p) => target(kind) == Some(
                trimmed(p.port) + seq![' ', '@', ' '] + decimal(p.baud as nat) + seq![
                    ' ',
                    'b',
                    'p',
                    's',
                ],
            ),
        },
{
    reveal_strlit(" @ ");
    reveal_strlit(" bps");
    assert(" @ "@ =~= seq![' ', '@', ' ']);
    assert(" bps"@ =~= seq![' ', 'b', 'p', 's']);
}

/// A session is called by the name of its connection, or where that is blank by the
/// host or the device; a local shell is called as it is.
pub proof fn law_sessions_are_called_by_their_name(kind: KindModel)
    ensures
        match kind {
            KindModel::Local(shell) => kind_name(kind) == shell,
            KindModel::Ssh(p) | KindModel::Sftp(p) => kind_name(kind) == (if trimmed(
                p.name,
            ).len() == 0 {
                p.host
            } else {
                p.name
            }),
            KindModel::Serial(p) => kind_name(kind) == (if trimmed(p.name).len() == 0 {
                trimmed(p.port)
            } else {
                p.name
            }),
        },
{
    match kind {
        KindModel::Local(_) => {},
        KindModel::Ssh(p) => crate::text::lemma_blank(p.name),
        KindModel::Sftp(p) => crate::text::lemma_blank(p.name),
        KindModel::Serial(p) => crate::text::lemma_blank(p.name),
    }
}

/// The model of a session tells its kind and holds what it connects to.
pub proof fn law_models_hold_the_session(kind: SessionKind)
    ensures
        kind matches SessionKind::Local(shell) ==> kind@ == KindModel::Local(shell@),
        kind matches SessionKind::Ssh(p) ==> kind@ == KindModel::Ssh(p@),
        kind matches SessionKind::Sftp(p) ==> kind@ == KindModel::Sftp(p@),
        kind matches SessionKind::Serial(p) ==> kind@ == KindModel::Serial(p@),
{
}

} // verus!
