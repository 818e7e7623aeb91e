//! Saved connections: SSH and serial.

use crate::text::{
    blank, chars_of, control, decimal, is_blank, is_control, is_whitespace, push_decimal,
    same_ignoring_case, same_letters, string_of, trim, trimmed, white,
};
use vstd::prelude::*;

verus! {

/// The line speed of a serial port when none was chosen. It is what a console
/// cable almost always expects.
pub const DEFAULT_BAUD: u32 = 115_200;

/// The highest line speed that is accepted.
pub const MAX_BAUD: u32 = 4_000_000;

/// The port of an SSH server when none was chosen.
pub const DEFAULT_SSH_PORT: u16 = 22;

/// The line speeds offered as presets.
pub const BAUD_RATES: [u32; 8] = [9600, 19200, 38400, 57600, 115200, 230400, 460800, 921600];

/// A local port that is forwarded through a connection.
#[derive(Debug)]
pub struct Forward {
    pub bind_port: u16,
    pub target_host: String,
    pub target_port: u16,
}

/// A saved SSH connection.
#[derive(Debug)]
pub struct RemoteProfile {
    pub name: String,
    pub host: String,
    pub user: String,
    pub port: u16,
    pub identity: String,
    pub group: String,
    /// Tab tag colour, `#rrggbb`; empty means none. Beats the group's colour.
    pub color: String,
    pub jump: Option<Box<RemoteProfile>>,
    pub forwards: Vec<Forward>,
}

/// A serial port that the terminal can open directly. `port` is the device
/// name (`COM3`, `/dev/ttyUSB0`) or `auto`, which picks a connected device at
/// connect time.
#[derive(Debug)]
pub struct SerialProfile {
    pub name: String,
    pub port: String,
    pub baud: u32,
    pub group: String,
    /// Tab tag colour, `#rrggbb`; empty means none. Beats the group's colour.
    pub color: String,
}

/// What a forward holds.
#[verifier::ext_equal]
pub struct ForwardModel {
    pub bind_port: u16,
    pub target_host: Seq<char>,
    pub target_port: u16,
}

/// What an SSH connection holds.
#[verifier::ext_equal]
pub struct RemoteModel {
    pub name: Seq<char>,
    pub host: Seq<char>,
    pub user: Seq<char>,
    pub port: u16,
    pub identity: Seq<char>,
    pub group: Seq<char>,
    pub color: Seq<char>,
    pub jump: Option<Box<RemoteModel>>,
    pub forwards: Seq<ForwardModel>,
}

/// What a serial connection holds.
#[verifier::ext_equal]
pub struct SerialModel {
    pub name: Seq<char>,
    pub port: Seq<char>,
    pub baud: u32,
    pub group: Seq<char>,
    pub color: Seq<char>,
}

impl View for Forward {
    type V = ForwardModel;

    open spec fn view(&self) -> ForwardModel {
        ForwardModel {
            bind_port: self.bind_port,
            target_host: self.target_host@,
            target_port: self.target_port,
        }
    }
}

impl RemoteProfile {
    /// What the connection holds.
    pub open spec fn model(self) -> RemoteModel
        decreases self,
    {
        RemoteModel {
            name: self.name@,
            host: self.host@,
            user: self.user@,
            port: self.port,
            identity: self.identity@,
            group: self.group@,
            color: self.color@,
            jump: match self.jump {
                Some(jump) => Some(Box::new(jump.model())),
                None => None,
            },
            forwards: forward_models(self.forwards@),
        }
    }
}

/// What the forwards of a list hold.
pub open spec fn forward_models(list: Seq<Forward>) -> Seq<ForwardModel> {
    list.map_values(|f: Forward| f@)
}

/// What the connections of a list hold.
pub open spec fn remote_models(list: Seq<RemoteProfile>) -> Seq<RemoteModel> {
    list.map_values(|p: RemoteProfile| p@)
}

/// What the serial connections of a list hold.
pub open spec fn serial_models(list: Seq<SerialProfile>) -> Seq<SerialModel> {
    list.map_values(|p: SerialProfile| p@)
}

impl View for RemoteProfile {
    type V = RemoteModel;

    open spec fn view(&self) -> RemoteModel {
        self.model()
    }
}

impl View for SerialProfile {
    type V = SerialModel;

    open spec fn view(&self) -> SerialModel {
        SerialModel {
            name: self.name@,
            port: self.port@,
            baud: self.baud,
            group: self.group@,
            color: self.color@,
        }
    }
}

/// What is wrong with an SSH connection.
#[derive(Clone, Copy, Debug, PartialEq, Eq, Structural)]
pub enum ProfileError {
    /// The host is empty or could be taken for something else.
    Host,
    /// The user could be taken for something else.
    User,
    /// The port is zero.
    Port,
    /// The jump host has a jump host itself.
    NestedJump,
    /// A forward lacks a port or a usable target.
    Forward,
    /// Two forwards listen on this port.
    DuplicatePort(u16),
}

/// What is wrong with a serial connection.
#[derive(Clone, Copy, Debug, PartialEq, Eq, Structural)]
pub enum SerialError {
    /// No device is named.
    Missing,
    /// The name of the device holds white space or a quote.
    Name,
    /// The line speed is out of range.
    Baud,
}

/// A character that must not occur in the name of a host.
pub open spec fn bad_in_host(c: char) -> bool {
    white(c) || control(c) || c == '@' || c == '/' || c == '\\'
}

/// A character that must not occur in the name of a user.
pub open spec fn bad_in_user(c: char) -> bool {
    bad_in_host(c) || c == ':'
}

/// A character that must not occur in the target of a forward.
pub open spec fn bad_in_target(c: char) -> bool {
    white(c) || control(c)
}

/// A character that must not occur in the name of a device.
pub open spec fn bad_in_device(c: char) -> bool {
    white(c) || control(c) || c == '"'
}

/// Whether some character of the text has the property.
pub open spec fn any_char(s: Seq<char>, p: spec_fn(char) -> bool) -> bool {
    exists|i: int| 0 <= i < s.len() && p(#[trigger] s[i])
}

/// Whether the text starts with a dash, as a command option does.
pub open spec fn dashed(s: Seq<char>) -> bool {
    s.len() > 0 && s[0] == '-'
}

/// Whether a forward has both ports and a usable target.
pub open spec fn forward_usable(f: ForwardModel) -> bool {
    &&& f.bind_port != 0
    &&& f.target_port != 0
    &&& f.target_host.len() > 0
    &&& !any_char(f.target_host, |c: char| bad_in_target(c))
}

/// What is wrong with the first forward that has something wrong.
pub open spec fn forwards_error(list: Seq<ForwardModel>) -> Option<ProfileError>
    decreases list.len(),
{
    if list.len() == 0 {
        None
    } else if let Some(e) = forwards_error(list.drop_last()) {
        Some(e)
    } else if !forward_usable(list.last()) {
        Some(ProfileError::Forward)
    } else if exists|i: int|
        0 <= i < list.len() - 1 && (#[trigger] list[i]).bind_port == list.last().bind_port {
        Some(ProfileError::DuplicatePort(list.last().bind_port))
    } else {
        None
    }
}

/// What is wrong with an SSH connection: the first of these that holds.
pub open spec fn profile_error(p: RemoteModel) -> Option<ProfileError>
    decreases p,
{
    if p.host.len() == 0 || dashed(p.host) || any_char(p.host, |c: char| bad_in_host(c)) {
        Some(ProfileError::Host)
    } else if dashed(p.user) || any_char(p.user, |c: char| bad_in_user(c)) {
        Some(ProfileError::User)
    } else if p.port == 0 {
        Some(ProfileError::Port)
    } else if p.jump is Some && p.jump->0.jump is Some {
        Some(ProfileError::NestedJump)
    } else if p.jump is Some && profile_error(*p.jump->0) is Some {
        profile_error(*p.jump->0)
    } else {
        forwards_error(p.forwards)
    }
}

/// What is wrong with a serial connection: the first of these that holds.
pub open spec fn serial_error(p: SerialModel) -> Option<SerialError> {
    let port = trimmed(p.port);
    if port.len() == 0 {
        Some(SerialError::Missing)
    } else if any_char(port, |c: char| bad_in_device(c)) {
        Some(SerialError::Name)
    } else if p.baud == 0 || p.baud > MAX_BAUD {
        Some(SerialError::Baud)
    } else {
        None
    }
}

impl ProfileError {
    /// The message for the user.
    pub open spec fn text(self) -> Seq<char> {
        match self {
            ProfileError::Host => "请输入有效的主机名或 IP 地址（不能包含空格或命令参数）"@,
            ProfileError::User => "用户名不能包含空格、路径或命令参数"@,
            ProfileError::Port => "端口范围是 1–65535"@,
            ProfileError::NestedJump => "ProxyJump 当前只支持一级跳板机"@,
            ProfileError::Forward => "请输入有效的转发地址和端口"@,
            ProfileError::DuplicatePort(port) => "同一个连接不能重复监听本地端口 "@ + decimal(
                port as nat,
            ),
        }
    }

    /// The message for the user.
    pub fn message(self) -> (out: String)
        ensures
            out@ == self.text(),
    {
        let mut out = String::new();
        match self {
            ProfileError::Host => out.append(
                "请输入有效的主机名或 IP 地址（不能包含空格或命令参数）",
            ),
            ProfileError::User => out.append("用户名不能包含空格、路径或命令参数"),
            ProfileError::Port => out.append("端口范围是 1–65535"),
            ProfileError::NestedJump => out.append("ProxyJump 当前只支持一级跳板机"),
            ProfileError::Forward => out.append("请输入有效的转发地址和端口"),
            ProfileError::DuplicatePort(port) => {
                out.append("同一个连接不能重复监听本地端口 ");
                push_decimal(&mut out, port as u64);
            },
        }
        assert(out@ =~= self.text());
        out
    }
}

impl SerialError {
    /// The message for the user; `example` is a device name of the platform.
    pub open spec fn text(self, example: Seq<char>) -> Seq<char> {
        match self {
            SerialError::Missing => "请输入串口设备名，例如 "@ + example + " 或 auto"@,
            SerialError::Name => "串口设备名不能包含空格或引号"@,
            SerialError::Baud => "波特率范围是 1–4000000"@,
        }
    }

    /// The message for the user; `example` is a device name of the platform.
    pub fn message(self, example: &str) -> (out: String)
        ensures
            out@ == self.text(example@),
    {
        let mut out = String::new();
        match self {
            SerialError::Missing => {
                out.append("请输入串口设备名，例如 ");
                out.append(example);
                out.append(" 或 auto");
            },
            SerialError::Name => out.append("串口设备名不能包含空格或引号"),
            SerialError::Baud => out.append("波特率范围是 1–4000000"),
        }
        assert(out@ =~= self.text(example@));
        out
    }
}

/// Whether a host name starts like an option or holds a character that it must
/// not.
fn host_refused(s: &str) -> (yes: bool)
    ensures
        yes == (s@.len() == 0 || dashed(s@) || any_char(s@, |c: char| bad_in_host(c))),
{
    let chars: Vec<char> = chars_of(s);
    let n: usize = chars.len();
    if n == 0 || chars[0] == '-' {
        return true;
    }
    let mut i: usize = 0;
    while i < n
        invariant
            i <= n,
            n == chars@.len(),
            chars@ == s@,
            forall|j: int| 0 <= j < i ==> !bad_in_host(#[trigger] chars@[j]),
        decreases n - i,
    {
        let c: char = chars[i];
        if is_whitespace(c) || is_control(c) || c == '@' || c == '/' || c == '\\' {
            assert(bad_in_host(s@[i as int]));
            return true;
        }
        i += 1;
    }
    false
}

/// Whether a user name starts like an option or holds a character that it must
/// not.
fn user_refused(s: &str) -> (yes: bool)
    ensures
        yes == (dashed(s@) || any_char(s@, |c: char| bad_in_user(c))),
{
    let chars: Vec<char> = chars_of(s);
    let n: usize = chars.len();
    if n > 0 && chars[0] == '-' {
        return true;
    }
    let mut i: usize = 0;
    while i < n
        invariant
            i <= n,
            n == chars@.len(),
            chars@ == s@,
            forall|j: int| 0 <= j < i ==> !bad_in_user(#[trigger] chars@[j]),
        decreases n - i,
    {
        let c: char = chars[i];
        if is_whitespace(c) || is_control(c) || c == '@' || c == '/' || c == '\\' || c == ':' {
            assert(bad_in_user(s@[i as int]));
            return true;
        }
        i += 1;
    }
    false
}

impl Forward {
    /// A copy of the forward.
    pub fn duplicate(&self) -> (out: Forward)
        ensures
            out == *self,
    {
        Forward {
            bind_port: self.bind_port,
            target_host: self.target_host.clone(),
            target_port: self.target_port,
        }
    }

    /// Whether the forward has both ports and a usable target.
    pub fn usable(&self) -> (yes: bool)
        ensures
            yes == forward_usable(self@),
    {
        let chars: Vec<char> = chars_of(self.target_host.as_str());
        let n: usize = chars.len();
        if self.bind_port == 0 || self.target_port == 0 || n == 0 {
            return false;
        }
        let mut i: usize = 0;
        while i < n
            invariant
                i <= n,
                n == chars@.len(),
                chars@ == self.target_host@,
                forall|j: int| 0 <= j < i ==> !bad_in_target(#[trigger] chars@[j]),
            decreases n - i,
        {
            let c: char = chars[i];
            if is_whitespace(c) || is_control(c) {
                assert(bad_in_target(self@.target_host[i as int]));
                return false;
            }
            i += 1;
        }
        true
    }
}

/// What is wrong with the first forward that has something wrong.
fn check_forwards(list: &Vec<Forward>) -> (out: Result<(), ProfileError>)
    ensures
        match out {
            Ok(()) => forwards_error(forward_models(list@)) is None,
            Err(e) => forwards_error(forward_models(list@)) == Some(e),
        },
{
    let n: usize = list.len();
    let ghost all = forward_models(list@);
    let mut k: usize = 0;
    assert(all.take(0) =~= Seq::<ForwardModel>::empty());
    while k < n
        invariant
            k <= n,
            n == list@.len(),
            all == forward_models(list@),
            forwards_error(all.take(k as int)) is None,
        decreases n - k,
    {
        let ghost seen = all.take(k + 1);
        assert(seen.drop_last() =~= all.take(k as int));
        assert(seen.last() == list@[k as int]@);
        if !list[k].usable() {
            proof {
                lemma_forwards_error(all, k + 1);
            }
            return Err(ProfileError::Forward);
        }
        let mut j: usize = 0;
        while j < k
            invariant
                j <= k < n,
                n == list@.len(),
                all == forward_models(list@),
                seen == all.take(k + 1),
                seen.drop_last() == all.take(k as int),
                forwards_error(all.take(k as int)) is None,
                forward_usable(seen.last()),
                forall|i: int| 0 <= i < j ==> (#[trigger] seen[i]).bind_port
                    != seen.last().bind_port,
            decreases k - j,
        {
            assert(seen[j as int] == list@[j as int]@);
            if list[j].bind_port == list[k].bind_port {
                proof {
                    lemma_forwards_error(all, k + 1);
                }
                return Err(ProfileError::DuplicatePort(list[k].bind_port));
            }
            j += 1;
        }
        k += 1;
    }
    assert(all.take(n as int) =~= all);
    Ok(())
}

proof fn lemma_forwards_error(list: Seq<ForwardModel>, k: int)
    requires
        0 <= k <= list.len(),
        forwards_error(list.take(k)) is Some,
    ensures
        forwards_error(list) == forwards_error(list.take(k)),
    decreases list.len(),
{
    if k < list.len() {
        assert(list.drop_last().take(k) =~= list.take(k));
        lemma_forwards_error(list.drop_last(), k);
    } else {
        assert(list.take(k) =~= list);
    }
}

/// A copy of a list of forwards.
fn duplicate_forwards(list: &Vec<Forward>) -> (out: Vec<Forward>)
    ensures
        out@ == list@,
{
    let mut out: Vec<Forward> = Vec::new();
    let n: usize = list.len();
    for i in 0..n
        invariant
            n == list@.len(),
            out@ == list@.take(i as int),
    {
        out.push(list[i].duplicate());
        assert(list@.take(i + 1) =~= list@.take(i as int).push(list@[i as int]));
    }
    assert(list@.take(n as int) =~= list@);
    out
}

/// A copy of a text.
pub fn text_copy(s: &str) -> (out: String)
    ensures
        out@ == s@,
{
    let mut out = String::new();
    out.append(s);
    assert(out@ =~= s@);
    out
}

impl Default for RemoteProfile {
    fn default() -> (p: RemoteProfile)
        ensures
            p@ == default_remote(),
    {
        let p = RemoteProfile {
            name: String::new(),
            host: String::new(),
            user: String::new(),
            port: DEFAULT_SSH_PORT,
            identity: String::new(),
            group: String::new(),
            color: String::new(),
            jump: None,
            forwards: Vec::new(),
        };
        assert(p@ =~= default_remote());
        p
    }
}

/// A connection that names nothing yet.
pub open spec fn default_remote() -> RemoteModel {
    RemoteModel {
        name: Seq::empty(),
        host: Seq::empty(),
        user: Seq::empty(),
        port: DEFAULT_SSH_PORT,
        identity: Seq::empty(),
        group: Seq::empty(),
        color: Seq::empty(),
        jump: None,
        forwards: Seq::empty(),
    }
}

impl Clone for Forward {
    fn clone(&self) -> (out: Forward)
        ensures
            out == *self,
    {
        self.duplicate()
    }
}

impl Clone for RemoteProfile {
    fn clone(&self) -> (out: RemoteProfile)
        ensures
            out@ == self@,
    {
        self.duplicate()
    }
}

impl Clone for SerialProfile {
    fn clone(&self) -> (out: SerialProfile)
        ensures
            out@ == self@,
    {
        self.duplicate()
    }
}

impl RemoteProfile {
    /// A copy of the connection.
    pub fn duplicate(&self) -> (out: RemoteProfile)
        ensures
            out@ == self@,
        decreases self,
    {
        let jump = match &self.jump {
            Some(jump) => Some(Box::new(jump.duplicate())),
            None => None,
        };
        let out = RemoteProfile {
            name: self.name.clone(),
            host: self.host.clone(),
            user: self.user.clone(),
            port: self.port,
            identity: self.identity.clone(),
            group: self.group.clone(),
            color: self.color.clone(),
            jump,
            forwards: duplicate_forwards(&self.forwards),
        };
        assert(out@ =~= self@);
        out
    }

    /// Whether the connection can be used, and what is wrong if not.
    pub fn validate(&self) -> (out: Result<(), ProfileError>)
        ensures
            match out {
                Ok(()) => profile_error(self@) is None,
                Err(e) => profile_error(self@) == Some(e),
            },
        decreases self,
    {
        if host_refused(self.host.as_str()) {
            return Err(ProfileError::Host);
        }
        if user_refused(self.user.as_str()) {
            return Err(ProfileError::User);
        }
        if self.port == 0 {
            return Err(ProfileError::Port);
        }
        if let Some(jump) = &self.jump {
            assert(jump.model().jump is Some == jump.jump is Some);
            if jump.jump.is_some() {
                return Err(ProfileError::NestedJump);
            }
            if let Err(e) = jump.validate() {
                return Err(e);
            }
        }
        check_forwards(&self.forwards)
    }

    /// Where the connection goes: `user@host`, or the host alone.
    pub fn destination(&self) -> (out: String)
        ensures
            out@ == (if self.user@.len() == 0 {
                self.host@
            } else {
                self.user@ + "@"@ + self.host@
            }),
    {
        let mut out = String::new();
        if !self.user.as_str().is_empty() {
            out.append(self.user.as_str());
            out.append("@");
        }
        out.append(self.host.as_str());
        proof {
            if self.user@.len() == 0 {
                assert(out@ =~= self.host@);
            } else {
                assert(out@ =~= self.user@ + "@"@ + self.host@);
            }
        }
        out
    }

    /// What the connection is called: its name, or its host where it has none.
    pub fn label(&self) -> (out: String)
        ensures
            out@ == remote_label(self@),
    {
        if is_blank(chars_of(self.name.as_str()).as_slice()) {
            self.host.clone()
        } else {
            self.name.clone()
        }
    }
}

/// What a connection is called: its name, or its host where it has none.
pub open spec fn remote_label(p: RemoteModel) -> Seq<char> {
    if blank(p.name) {
        p.host
    } else {
        p.name
    }
}

/// What a serial connection is called: its name, or its device where it has
/// none.
pub open spec fn serial_label(p: SerialModel) -> Seq<char> {
    if blank(p.name) {
        trimmed(p.port)
    } else {
        p.name
    }
}

/// The serial connection that is offered first.
pub open spec fn default_serial() -> SerialModel {
    SerialModel {
        name: Seq::empty(),
        port: "auto"@,
        baud: DEFAULT_BAUD,
        group: Seq::empty(),
        color: Seq::empty(),
    }
}

impl Default for SerialProfile {
    fn default() -> (p: SerialProfile)
        ensures
            p@ == default_serial(),
    {
        let p = SerialProfile {
            name: String::new(),
            port: text_copy("auto"),
            baud: DEFAULT_BAUD,
            group: String::new(),
            color: String::new(),
        };
        assert(p@ =~= default_serial());
        p
    }
}

impl SerialProfile {
    /// A copy of the connection.
    pub fn duplicate(&self) -> (out: SerialProfile)
        ensures
            out@ == self@,
    {
        SerialProfile {
            name: self.name.clone(),
            port: self.port.clone(),
            baud: self.baud,
            group: self.group.clone(),
            color: self.color.clone(),
        }
    }

    /// Whether the connection can be used, and what is wrong if not.
    pub fn validate(&self) -> (out: Result<(), SerialError>)
        ensures
            match out {
                Ok(()) => serial_error(self@) is None,
                Err(e) => serial_error(self@) == Some(e),
            },
    {
        let chars: Vec<char> = chars_of(self.port.as_str());
        let port = trim(chars.as_slice());
        let n: usize = port.len();
        if n == 0 {
            return Err(SerialError::Missing);
        }
        let mut i: usize = 0;
        while i < n
            invariant
                0 < n,
                i <= n,
                n == port@.len(),
                port@ == trimmed(self.port@),
                forall|j: int| 0 <= j < i ==> !bad_in_device(#[trigger] port@[j]),
            decreases n - i,
        {
            let c: char = port[i];
            if is_whitespace(c) || is_control(c) || c == '"' {
                assert(bad_in_device(trimmed(self@.port)[i as int]));
                return Err(SerialError::Name);
            }
            i += 1;
        }
        if self.baud == 0 || self.baud > MAX_BAUD {
            return Err(SerialError::Baud);
        }
        Ok(())
    }

    /// Whether the device is chosen when connecting.
    pub fn auto(&self) -> (yes: bool)
        ensures
            yes == same_letters(trimmed(self.port@), "auto"@),
    {
        let chars: Vec<char> = chars_of(self.port.as_str());
        let auto: Vec<char> = chars_of("auto");
        same_ignoring_case(trim(chars.as_slice()), auto.as_slice())
    }

    /// What the connection is called.
    pub fn label(&self) -> (out: String)
        ensures
            out@ == serial_label(self@),
    {
        if is_blank(chars_of(self.name.as_str()).as_slice()) {
            string_of(trim(chars_of(self.port.as_str()).as_slice()))
        } else {
            self.name.clone()
        }
    }
}

/// No two forwards of a connection that is accepted listen on the same port.
pub proof fn law_accepted_forwards_listen_apart(list: Seq<ForwardModel>, i: int, j: int)
    requires
        forwards_error(list) is None,
        0 <= i < j < list.len(),
    ensures
        list[i].bind_port != list[j].bind_port,
        forward_usable(list[i]),
        forward_usable(list[j]),
    decreases list.len(),
{
    let rest = list.drop_last();
    if j < rest.len() {
        law_accepted_forwards_listen_apart(rest, i, j);
    } else {
        assert(list[i].bind_port != list.last().bind_port);
        lemma_each_usable(rest, i);
    }
}

proof fn lemma_each_usable(list: Seq<ForwardModel>, i: int)
    requires
        forwards_error(list) is None,
        0 <= i < list.len(),
    ensures
        forward_usable(list[i]),
    decreases list.len(),
{
    if i < list.len() - 1 {
        lemma_each_usable(list.drop_last(), i);
    }
}

/// Neither the host nor the user of a connection that is accepted can be taken
/// for a command option, a path or several arguments, and its jump host is
/// accepted by the same rules.
pub proof fn law_accepted_names_are_no_options(p: RemoteModel)
    requires
        profile_error(p) is None,
    ensures
        p.host.len() > 0,
        !dashed(p.host),
        !dashed(p.user),
        forall|i: int| 0 <= i < p.host.len() ==> !bad_in_host(#[trigger] p.host[i]),
        forall|i: int| 0 <= i < p.user.len() ==> !bad_in_user(#[trigger] p.user[i]),
        p.port != 0,
        p.jump is Some ==> p.jump->0.jump is None && profile_error(*p.jump->0) is None,
{
    let host = |c: char| bad_in_host(c);
    let user = |c: char| bad_in_user(c);
    assert forall|i: int| 0 <= i < p.host.len() implies !bad_in_host(#[trigger] p.host[i]) by {
        assert(!host(p.host[i]));
    }
    assert forall|i: int| 0 <= i < p.user.len() implies !bad_in_user(#[trigger] p.user[i]) by {
        assert(!user(p.user[i]));
    }
}

/// Whether every forward can be used and no two listen on one port.
pub open spec fn forwards_sound(list: Seq<ForwardModel>) -> bool {
    &&& forall|i: int| 0 <= i < list.len() ==> forward_usable(#[trigger] list[i])
    &&& forall|i: int, j: int|
        0 <= i < j < list.len() ==> (#[trigger] list[i]).bind_port != (
        #[trigger] list[j]).bind_port
}

/// Forwards are accepted exactly where each can be used and no two listen on one
/// port.
pub proof fn law_accepted_forwards_are_sound(list: Seq<ForwardModel>)
    ensures
        forwards_error(list) is None <==> forwards_sound(list),
    decreases list.len(),
{
    if list.len() > 0 {
        let rest = list.drop_last();
        law_accepted_forwards_are_sound(rest);
        if forwards_sound(list) {
            assert forall|i: int| 0 <= i < rest.len() implies forward_usable(
                #[trigger] rest[i],
            ) by {
                assert(rest[i] == list[i]);
            }
            assert(forwards_sound(rest));
            assert(list[list.len() - 1] == list.last());
        }
        if forwards_error(list) is None {
            assert forall|i: int| 0 <= i < list.len() implies forward_usable(
                #[trigger] list[i],
            ) by {
                if i < rest.len() {
                    assert(rest[i] == list[i]);
                }
            }
            assert forall|i: int, j: int| 0 <= i < j < list.len() implies (
            #[trigger] list[i]).bind_port != (#[trigger] list[j]).bind_port by {
                if j < rest.len() {
                    assert(rest[i] == list[i] && rest[j] == list[j]);
                }
            }
        }
    }
}

/// Whether two connections go to the same place in the same way: they may differ
/// in what they are called, in their key, their group and their colour, and in
/// the order of their forwards, and so may their jump hosts.
pub open spec fn same_connection(p: RemoteModel, q: RemoteModel) -> bool
    decreases p,
{
    &&& p.host == q.host
    &&& p.user == q.user
    &&& p.port == q.port
    &&& p.forwards.to_multiset() == q.forwards.to_multiset()
    &&& match (p.jump, q.jump) {
        (Some(a), Some(b)) => same_connection(*a, *b),
        (None, None) => true,
        _ => false,
    }
}

proof fn lemma_sound_in_any_order(a: Seq<ForwardModel>, b: Seq<ForwardModel>)
    requires
        a.to_multiset() == b.to_multiset(),
        forwards_sound(a),
    ensures
        forwards_sound(b),
{
    broadcast use vstd::seq_lib::to_multiset_contains;

    assert forall|i: int, j: int| 0 <= i < a.len() && 0 <= j < a.len() && i != j implies a[i]
        != a[j] by {
        if i < j {
            assert(a[i].bind_port != a[j].bind_port);
        } else {
            assert(a[j].bind_port != a[i].bind_port);
        }
    }
    a.lemma_multiset_has_no_duplicates();
    b.lemma_multiset_has_no_duplicates_conv();
    assert forall|i: int| 0 <= i < b.len() implies forward_usable(#[trigger] b[i]) by {
        assert(b.contains(b[i]));
        assert(a.to_multiset().count(b[i]) > 0);
        assert(a.contains(b[i]));
    }
    assert forall|i: int, j: int| 0 <= i < j < b.len() implies (#[trigger] b[i]).bind_port != (
    #[trigger] b[j]).bind_port by {
        assert(b.contains(b[i]) && b.contains(b[j]));
        assert(a.to_multiset().count(b[i]) > 0 && a.to_multiset().count(b[j]) > 0);
        let k = choose|k: int| 0 <= k < a.len() && a[k] == b[i];
        let m = choose|m: int| 0 <= m < a.len() && a[m] == b[j];
        assert(b[i] != b[j]);
        if k < m {
            assert(a[k].bind_port != a[m].bind_port);
        } else {
            assert(a[m].bind_port != a[k].bind_port);
        }
    }
}

/// Whether a connection is accepted depends on where it goes alone: not on its
/// name, its key, its group or its colour, and not on the order of its forwards.
pub proof fn law_only_the_connection_is_checked(p: RemoteModel, q: RemoteModel)
    requires
        same_connection(p, q),
    ensures
        profile_error(p) is None <==> profile_error(q) is None,
    decreases p,
{
    reveal_with_fuel(same_connection, 2);
    if let (Some(a), Some(b)) = (p.jump, q.jump) {
        law_only_the_connection_is_checked(*a, *b);
    }
    law_accepted_forwards_are_sound(p.forwards);
    law_accepted_forwards_are_sound(q.forwards);
    if forwards_sound(p.forwards) {
        lemma_sound_in_any_order(p.forwards, q.forwards);
    }
    if forwards_sound(q.forwards) {
        lemma_sound_in_any_order(q.forwards, p.forwards);
    }
}

/// Whether a text holds white space or a control character.
pub open spec fn broken(s: Seq<char>) -> bool {
    exists|i: int| 0 <= i < s.len() && (white(#[trigger] s[i]) || control(s[i]))
}

proof fn lemma_bad_in_host(s: Seq<char>)
    ensures
        any_char(s, |c: char| bad_in_host(c)) <==> broken(s) || s.contains('@') || s.contains('/')
            || s.contains('\\'),
        any_char(s, |c: char| bad_in_user(c)) <==> broken(s) || s.contains('@') || s.contains('/')
            || s.contains('\\') || s.contains(':'),
        any_char(s, |c: char| bad_in_target(c)) <==> broken(s),
        any_char(s, |c: char| bad_in_device(c)) <==> broken(s) || s.contains('"'),
{
    let host = |c: char| bad_in_host(c);
    let user = |c: char| bad_in_user(c);
    let target = |c: char| bad_in_target(c);
    let device = |c: char| bad_in_device(c);
    if broken(s) {
        let i = choose|i: int| 0 <= i < s.len() && (white(#[trigger] s[i]) || control(s[i]));
        assert(host(s[i]) && user(s[i]) && target(s[i]) && device(s[i]));
    }
    if s.contains('@') || s.contains('/') || s.contains('\\') {
        let i = choose|i: int|
            0 <= i < s.len() && (#[trigger] s[i] == '@' || s[i] == '/' || s[i] == '\\');
        assert(host(s[i]) && user(s[i]));
    }
    if s.contains(':') {
        let i = choose|i: int| 0 <= i < s.len() && s[i] == ':';
        assert(user(s[i]));
    }
    if s.contains('"') {
        let i = choose|i: int| 0 <= i < s.len() && s[i] == '"';
        assert(device(s[i]));
    }
    if any_char(s, host) {
        let i = choose|i: int| 0 <= i < s.len() && host(#[trigger] s[i]);
        assert(bad_in_host(s[i]));
        assert(s.contains(s[i]));
    }
    if any_char(s, user) {
        let i = choose|i: int| 0 <= i < s.len() && user(#[trigger] s[i]);
        assert(bad_in_user(s[i]));
        assert(s.contains(s[i]));
    }
    if any_char(s, target) {
        let i = choose|i: int| 0 <= i < s.len() && target(#[trigger] s[i]);
        assert(bad_in_target(s[i]));
    }
    if any_char(s, device) {
        let i = choose|i: int| 0 <= i < s.len() && device(#[trigger] s[i]);
        assert(bad_in_device(s[i]));
        assert(s.contains(s[i]));
    }
}

/// What a connection must be like to be accepted, and what it is refused for first: a
/// host that could be an option, a path or several words; then such a user; then no
/// port; then a jump host that has one itself, or is not accepted; then its forwards.
pub proof fn law_what_a_connection_is_refused_for(p: RemoteModel)
    ensures
        ({
            let host = p.host.len() == 0 || p.host[0] == '-' || broken(p.host) || p.host.contains(
                '@',
            ) || p.host.contains('/') || p.host.contains('\\');
            let user = (p.user.len() > 0 && p.user[0] == '-') || broken(p.user) || p.user.contains(
                '@',
            ) || p.user.contains('/') || p.user.contains('\\') || p.user.contains(':');
            profile_error(p) == (if host {
                Some(ProfileError::Host)
            } else if user {
                Some(ProfileError::User)
            } else if p.port == 0 {
                Some(ProfileError::Port)
            } else if p.jump is Some && p.jump->0.jump is Some {
                Some(ProfileError::NestedJump)
            } else if p.jump is Some && profile_error(*p.jump->0) is Some {
                profile_error(*p.jump->0)
            } else {
                forwards_error(p.forwards)
            })
        }),
{
    lemma_bad_in_host(p.host);
    lemma_bad_in_host(p.user);
}

/// One more forward: what is wrong with an earlier one comes first. It must have both
/// ports and a target without white space or control characters, and its own port must
/// be free.
pub proof fn law_what_a_forward_is_refused_for(list: Seq<ForwardModel>, f: ForwardModel)
    ensures
        forwards_error(Seq::empty()) is None,
        forwards_error(list.push(f)) == (if forwards_error(list) is Some {
            forwards_error(list)
        } else if f.bind_port == 0 || f.target_port == 0 || f.target_host.len() == 0 || broken(
            f.target_host,
        ) {
            Some(ProfileError::Forward)
        } else if exists|i: int|
            0 <= i < list.len() && (#[trigger] list[i]).bind_port == f.bind_port {
            Some(ProfileError::DuplicatePort(f.bind_port))
        } else {
            None
        }),
{
    let all = list.push(f);
    lemma_bad_in_host(f.target_host);
    assert(all.drop_last() =~= list);
    assert(all.last() == f);
    if exists|i: int| 0 <= i < list.len() && (#[trigger] list[i]).bind_port == f.bind_port {
        let i = choose|i: int|
            0 <= i < list.len() && (#[trigger] list[i]).bind_port == f.bind_port;
        assert(all[i].bind_port == f.bind_port);
    }
    if exists|i: int|
        0 <= i < all.len() - 1 && (#[trigger] all[i]).bind_port == all.last().bind_port {
        let i = choose|i: int|
            0 <= i < all.len() - 1 && (#[trigger] all[i]).bind_port == all.last().bind_port;
        assert(list[i].bind_port == f.bind_port);
    }
}

/// What a serial connection is refused for: no device, one with white space, control
/// characters or a quote inside it, or a speed that is zero or over four million.
pub proof fn law_what_a_serial_connection_is_refused_for(p: SerialModel)
    ensures
        ({
            let port = trimmed(p.port);
            serial_error(p) == (if port.len() == 0 {
                Some(SerialError::Missing)
            } else if broken(port) || port.contains('"') {
                Some(SerialError::Name)
            } else if p.baud == 0 || p.baud > 4_000_000 {
                Some(SerialError::Baud)
            } else {
                None
            })
        }),
{
    lemma_bad_in_host(trimmed(p.port));
}

/// What a form starts with: a host that nothing is known of, at port 22, and a device
/// that is chosen when connecting, at 115200 bits per second.
pub proof fn law_what_forms_start_with()
    ensures
        default_remote() == (RemoteModel {
            name: Seq::empty(),
            host: Seq::empty(),
            user: Seq::empty(),
            port: 22,
            identity: Seq::empty(),
            group: Seq::empty(),
            color: Seq::empty(),
            jump: None,
            forwards: Seq::empty(),
        }),
        default_serial() == (SerialModel {
            name: Seq::empty(),
            port: seq!['a', 'u', 't', 'o'],
            baud: 115200,
            group: Seq::empty(),
            color: Seq::empty(),
        }),
{
    reveal_strlit("auto");
    assert("auto"@ =~= seq!['a', 'u', 't', 'o']);
}

/// What is said of a connection that is refused.
pub proof fn law_what_is_said_of_refusals(port: u16, example: Seq<char>)
    ensures
        ProfileError::Host.text()
            == "请输入有效的主机名或 IP 地址（不能包含空格或命令参数）"@,
        ProfileError::User.text() == "用户名不能包含空格、路径或命令参数"@,
        ProfileError::Port.text() == "端口范围是 1–65535"@,
        ProfileError::NestedJump.text() == "ProxyJump 当前只支持一级跳板机"@,
        ProfileError::Forward.text() == "请输入有效的转发地址和端口"@,
        ProfileError::DuplicatePort(port).text() == "同一个连接不能重复监听本地端口 "@ + decimal(
            port as nat,
        ),
        SerialError::Missing.text(example) == "请输入串口设备名，例如 "@ + example + " 或 auto"@,
        SerialError::Name.text(example) == "串口设备名不能包含空格或引号"@,
        SerialError::Baud.text(example) == "波特率范围是 1–4000000"@,
{
}

/// The model of a connection holds each of its fields, and that of a list one for each of
/// its entries: nothing of a connection is lost in it.
pub proof fn law_models_hold_the_whole_connection(
    p: RemoteProfile,
    q: SerialProfile,
    f: Forward,
    list: Seq<RemoteProfile>,
    serials: Seq<SerialProfile>,
    i: int,
)
    ensures
        p@.name == p.name@ && p@.host == p.host@ && p@.user == p.user@ && p@.port == p.port,
        p@.identity == p.identity@ && p@.group == p.group@ && p@.color == p.color@,
        p.jump is None ==> p@.jump is None,
        p.jump matches Some(jump) ==> p@.jump == Some(Box::new(jump@)),
        p@.forwards.len() == p.forwards@.len(),
        0 <= i < p.forwards@.len() ==> p@.forwards[i] == p.forwards@[i]@,
        f@.bind_port == f.bind_port && f@.target_host == f.target_host@ && f@.target_port
            == f.target_port,
        q@.name == q.name@ && q@.port == q.port@ && q@.baud == q.baud,
        q@.group == q.group@ && q@.color == q.color@,
        remote_models(list).len() == list.len(),
        0 <= i < list.len() ==> remote_models(list)[i] == list[i]@,
        serial_models(serials).len() == serials.len(),
        0 <= i < serials.len() ==> serial_models(serials)[i] == serials[i]@,
{
}

/// The rates that are offered rise, and the one that a form starts with is among them.
pub proof fn law_which_rates_are_offered()
    ensures
        BAUD_RATES@ == seq![9600u32, 19200, 38400, 57600, 115200, 230400, 460800, 921600],
        DEFAULT_BAUD == BAUD_RATES[4],
        MAX_BAUD == 4_000_000,
        DEFAULT_SSH_PORT == 22,
{
    assert(BAUD_RATES@ =~= seq![9600u32, 19200, 38400, 57600, 115200, 230400, 460800, 921600]);
}

} // verus!
