//! Importing hosts from an OpenSSH client configuration.

use crate::config::profile::{
    default_remote, remote_models, text_copy, RemoteModel, RemoteProfile, DEFAULT_SSH_PORT,
};
use crate::text::{
    any_white, blank, chars_of, contents, decimal, find_char, find_white, first_where, has_char,
    has_white, is_blank, is_ink, is_the, is_white, law_decimal_digits, law_numbers_read_back,
    law_trimming_keeps_the_ink, lemma_decimal_value, lemma_first_where, lemma_first_where_bounds,
    lines, number, optional, parse_number, same_ignoring_case, same_letters, split_lines,
    split_words, string_of, trim, trim_back, trimmed, white, words,
};
use vstd::prelude::*;
use vstd::slice::slice_subrange;

verus! {

/// One option of the configuration.
pub struct Directive {
    pub key: Seq<char>,
    pub value: Seq<char>,
}

/// Whether the character opens or closes a quoted value.
pub open spec fn quote_mark(c: char) -> bool {
    c == '"' || c == '\''
}

/// The index of the first `#` that no quotes enclose, or the length. `quote` is
/// the quote that is open at the start.
pub open spec fn comment_start(s: Seq<char>, quote: Option<char>) -> int
    decreases s.len(),
{
    if s.len() == 0 || (s[0] == '#' && quote is None) {
        0
    } else {
        let next = if quote_mark(s[0]) && quote == Some(s[0]) {
            None
        } else if quote_mark(s[0]) && quote is None {
            Some(s[0])
        } else {
            quote
        };
        1 + comment_start(s.skip(1), next)
    }
}

/// The line without its comment.
pub open spec fn uncommented(line: Seq<char>) -> Seq<char> {
    line.take(comment_start(line, None))
}

/// The value without the quotes around it.
pub open spec fn unquoted(s: Seq<char>) -> Seq<char> {
    if s.len() >= 2 && quote_mark(s[0]) && s.last() == s[0] {
        s.subrange(1, s.len() - 1)
    } else {
        s
    }
}

/// The option on a line, written `Key value` or `Key=value`. A line that holds
/// nothing but a comment has none.
pub open spec fn directive(raw: Seq<char>) -> Option<Directive> {
    let line = trimmed(uncommented(raw));
    let equals = first_where(line, is_the('='));
    let gap = first_where(line, is_white());
    if line.len() == 0 {
        None
    } else if equals < line.len() && !any_white(trimmed(line.take(equals))) {
        Some(
            Directive {
                key: trimmed(line.take(equals)),
                value: unquoted(trimmed(line.skip(equals + 1))),
            },
        )
    } else if gap < line.len() {
        Some(
            Directive {
                key: line.take(gap),
                value: unquoted(trimmed(line.skip(gap + 1))),
            },
        )
    } else {
        Some(Directive { key: line, value: unquoted(trimmed(Seq::empty())) })
    }
}

/// The options on the lines, in order.
pub open spec fn directives(list: Seq<Seq<char>>) -> Seq<Directive>
    decreases list.len(),
{
    if list.len() == 0 {
        Seq::empty()
    } else {
        match directive(list[0]) {
            Some(d) => seq![d] + directives(list.skip(1)),
            None => directives(list.skip(1)),
        }
    }
}

/// Whether the option starts a `Host` section.
pub open spec fn starts_host(d: Directive) -> bool {
    same_letters(d.key, "Host"@)
}

/// Whether the option starts a section: `Host` and `Match` do.
pub open spec fn starts_section(d: Directive) -> bool {
    starts_host(d) || same_letters(d.key, "Match"@)
}

/// The index of the first option that starts a section, or the length.
pub open spec fn first_section(ds: Seq<Directive>) -> int
    decreases ds.len(),
{
    if ds.len() == 0 || starts_section(ds[0]) {
        0
    } else {
        1 + first_section(ds.skip(1))
    }
}

/// The value of the first option with the key.
pub open spec fn first_value(ds: Seq<Directive>, key: Seq<char>) -> Option<Seq<char>>
    decreases ds.len(),
{
    if ds.len() == 0 {
        None
    } else if let Some(v) = first_value(ds.drop_last(), key) {
        Some(v)
    } else if same_letters(ds.last().key, key) {
        Some(ds.last().value)
    } else {
        None
    }
}

/// The port that a value stands for.
pub open spec fn port_of(value: Seq<char>) -> Option<u16> {
    match number(value, 10, 65535) {
        Some(v) => Some(v as u16),
        None => None,
    }
}

/// The first `Port` that is a port.
pub open spec fn first_port(ds: Seq<Directive>) -> Option<u16>
    decreases ds.len(),
{
    if ds.len() == 0 {
        None
    } else if let Some(v) = first_port(ds.drop_last()) {
        Some(v)
    } else if same_letters(ds.last().key, "port"@) {
        port_of(ds.last().value)
    } else {
        None
    }
}

/// The first `ProxyJump` that names a host.
pub open spec fn first_jump(ds: Seq<Directive>) -> Option<RemoteModel>
    decreases ds.len(),
{
    if ds.len() == 0 {
        None
    } else if let Some(v) = first_jump(ds.drop_last()) {
        Some(v)
    } else if same_letters(ds.last().key, "proxyjump"@) {
        jump_of(ds.last().value)
    } else {
        None
    }
}

/// The index of the last colon, or -1.
pub open spec fn last_colon(s: Seq<char>) -> int
    decreases s.len(),
{
    if s.len() == 0 {
        -1
    } else if s.last() == ':' {
        s.len() - 1
    } else {
        last_colon(s.drop_last())
    }
}

/// The first hop of a `ProxyJump`: `user@host:port`, with or without the user
/// and the port.
pub open spec fn jump_of(value: Seq<char>) -> Option<RemoteModel> {
    let first = trimmed(value.take(first_where(value, is_the(','))));
    let at = first_where(first, is_the('@'));
    let user = if at < first.len() {
        first.take(at)
    } else {
        Seq::empty()
    };
    let rest = if at < first.len() {
        first.skip(at + 1)
    } else {
        first
    };
    let colon = last_colon(rest);
    let port = if colon >= 0 {
        port_of(rest.skip(colon + 1))
    } else {
        None
    };
    let host = if port is Some {
        rest.take(colon)
    } else {
        rest
    };
    if blank(host) {
        None
    } else {
        Some(
            RemoteModel {
                host,
                user,
                port: match port {
                    Some(p) => p,
                    None => DEFAULT_SSH_PORT,
                },
                ..default_remote()
            },
        )
    }
}

/// Whether the alias is a pattern: a rule, and no address to connect to.
pub open spec fn wildcard(alias: Seq<char>) -> bool {
    alias.contains('*') || alias.contains('?')
}

/// The value, or the empty text where there is none.
pub open spec fn or_empty(value: Option<Seq<char>>) -> Seq<char> {
    match value {
        Some(v) => v,
        None => Seq::empty(),
    }
}

/// What the options of a section say, as far as a connection takes it over.
#[verifier::ext_equal]
pub struct BlockModel {
    pub started: bool,
    pub aliases: Seq<Seq<char>>,
    pub hostname: Option<Seq<char>>,
    pub user: Option<Seq<char>>,
    pub port: Option<u16>,
    pub identity: Option<Seq<char>>,
    pub jump: Option<RemoteModel>,
}

impl BlockModel {
    /// No section yet.
    pub open spec fn fresh() -> BlockModel {
        BlockModel {
            started: false,
            aliases: Seq::empty(),
            hostname: None,
            user: None,
            port: None,
            identity: None,
            jump: None,
        }
    }

    /// The section with one more option. The first value of a key wins.
    pub open spec fn with(self, d: Directive) -> BlockModel {
        if same_letters(d.key, "hostname"@) && self.hostname is None {
            BlockModel { hostname: Some(d.value), ..self }
        } else if same_letters(d.key, "user"@) && self.user is None {
            BlockModel { user: Some(d.value), ..self }
        } else if same_letters(d.key, "port"@) && self.port is None {
            BlockModel { port: port_of(d.value), ..self }
        } else if same_letters(d.key, "identityfile"@) && self.identity is None {
            BlockModel { identity: Some(d.value), ..self }
        } else if same_letters(d.key, "proxyjump"@) && self.jump is None {
            BlockModel { jump: jump_of(d.value), ..self }
        } else {
            self
        }
    }

    /// The connection for one alias.
    pub open spec fn profile(self, alias: Seq<char>) -> RemoteModel {
        RemoteModel {
            name: alias,
            host: or_empty(self.hostname),
            user: or_empty(self.user),
            port: match self.port {
                Some(p) => p,
                None => DEFAULT_SSH_PORT,
            },
            identity: or_empty(self.identity),
            group: Seq::empty(),
            color: Seq::empty(),
            jump: match self.jump {
                Some(j) => Some(Box::new(j)),
                None => None,
            },
            forwards: Seq::empty(),
        }
    }

    /// The connections of the section: one for each alias that is no pattern,
    /// where the section names a host.
    pub open spec fn profiles(self) -> Seq<RemoteModel> {
        if self.hostname is None || blank(self.hostname->0) {
            Seq::empty()
        } else {
            aliased(self, self.aliases)
        }
    }
}

/// One connection for each alias that is no pattern.
pub open spec fn aliased(block: BlockModel, aliases: Seq<Seq<char>>) -> Seq<RemoteModel>
    decreases aliases.len(),
{
    if aliases.len() == 0 {
        Seq::empty()
    } else if wildcard(aliases.last()) {
        aliased(block, aliases.drop_last())
    } else {
        aliased(block, aliases.drop_last()).push(block.profile(aliases.last()))
    }
}

/// What a `Host` section says: for each key the first value, for the port and
/// the jump host the first that can be used.
pub open spec fn section(aliases: Seq<Seq<char>>, ds: Seq<Directive>) -> BlockModel {
    BlockModel {
        started: true,
        aliases,
        hostname: first_value(ds, "hostname"@),
        user: first_value(ds, "user"@),
        port: first_port(ds),
        identity: first_value(ds, "identityfile"@),
        jump: first_jump(ds),
    }
}

/// The connections of all `Host` sections, in order. What stands before the
/// first section, and in `Match` sections, is left out.
pub open spec fn imported(ds: Seq<Directive>) -> Seq<RemoteModel>
    decreases ds.len(),
{
    let h = first_section(ds);
    if h < 0 || h >= ds.len() {
        Seq::empty()
    } else {
        let rest = ds.skip(h + 1);
        let n = first_section(rest);
        if n < 0 || n > rest.len() {
            Seq::empty()
        } else if starts_host(ds[h]) {
            section(words(ds[h].value), rest.take(n)).profiles() + imported(rest.skip(n))
        } else {
            imported(rest.skip(n))
        }
    }
}

/// The first connection with the name.
pub open spec fn named(list: Seq<RemoteModel>, name: Seq<char>) -> Option<RemoteModel>
    decreases list.len(),
{
    if list.len() == 0 {
        None
    } else if list[0].name == name {
        Some(list[0])
    } else {
        named(list.skip(1), name)
    }
}

/// A jump host with what the connection it names says: the host, and what the
/// jump host leaves open.
pub open spec fn filled_jump(jump: RemoteModel, target: RemoteModel) -> RemoteModel {
    RemoteModel {
        host: target.host,
        user: if jump.user.len() == 0 {
            target.user
        } else {
            jump.user
        },
        port: if jump.port == DEFAULT_SSH_PORT {
            target.port
        } else {
            jump.port
        },
        identity: if jump.identity.len() == 0 {
            target.identity
        } else {
            jump.identity
        },
        ..jump
    }
}

/// The connection with its jump host looked up among `targets`.
pub open spec fn resolved(p: RemoteModel, targets: Seq<RemoteModel>) -> RemoteModel {
    match p.jump {
        Some(jump) => match named(targets, jump.host) {
            Some(target) => RemoteModel { jump: Some(Box::new(filled_jump(*jump, target))), ..p },
            None => p,
        },
        None => p,
    }
}

/// The connections with their jump hosts looked up among one another.
pub open spec fn all_resolved(list: Seq<RemoteModel>) -> Seq<RemoteModel> {
    list.map_values(|p: RemoteModel| resolved(p, list))
}

/// The connections in a configuration, with paths as they are written there.
pub open spec fn hosts_in(text: Seq<char>) -> Seq<RemoteModel> {
    all_resolved(imported(directives(lines(text))))
}

/// Where the comment of a line starts, or the length.
fn find_comment(s: &[char]) -> (k: usize)
    ensures
        k == comment_start(s@, None),
        k <= s@.len(),
{
    let n: usize = s.len();
    let mut quote: Option<char> = None;
    let mut k: usize = 0;
    assert(s@.skip(0) =~= s@);
    while k < n
        invariant
            k <= n,
            n == s@.len(),
            comment_start(s@, None) == k + comment_start(s@.skip(k as int), quote),
        decreases n - k,
    {
        let c: char = s[k];
        assert(s@.skip(k as int).skip(1) =~= s@.skip(k + 1));
        assert(s@.skip(k as int)[0] == c);
        match quote {
            Some(q) => {
                if q == c && (c == '"' || c == '\'') {
                    quote = None;
                }
            },
            None => {
                if c == '#' {
                    return k;
                }
                if c == '"' || c == '\'' {
                    quote = Some(c);
                }
            },
        }
        k += 1;
    }
    k
}

/// Drops an unquoted `#` comment: `#` inside quotes is part of the value.
pub fn strip_comment(line: &[char]) -> (out: &[char])
    ensures
        out@ == uncommented(line@),
{
    let k: usize = find_comment(line);
    let out = slice_subrange(line, 0, k);
    assert(out@ =~= uncommented(line@));
    out
}

/// The value without the quotes around it.
pub fn unquote(value: &[char]) -> (out: String)
    ensures
        out@ == unquoted(value@),
{
    let n: usize = value.len();
    if n >= 2 && (value[0] == '"' || value[0] == '\'') && value[n - 1] == value[0] {
        string_of(slice_subrange(value, 1, n - 1))
    } else {
        string_of(value)
    }
}

/// The option that a key and a value make.
pub open spec fn as_directive(pair: (String, String)) -> Directive {
    Directive { key: pair.0@, value: pair.1@ }
}

/// Splits one line into an option and its value, honouring comments and both
/// forms.
pub fn ssh_directive(raw: &str) -> (out: Option<(String, String)>)
    ensures
        match out {
            Some(pair) => directive(raw@) == Some(as_directive(pair)),
            None => directive(raw@) is None,
        },
{
    let chars: Vec<char> = chars_of(raw);
    let line = trim(strip_comment(chars.as_slice()));
    let n: usize = line.len();
    if n == 0 {
        return None;
    }
    let equals: usize = find_char(line, '=');
    if equals < n {
        let before = slice_subrange(line, 0, equals);
        let key = trim(before);
        assert(before@ =~= line@.take(equals as int));
        if !has_white(key) {
            let after = slice_subrange(line, equals + 1, n);
            assert(after@ =~= line@.skip(equals + 1));
            return Some((string_of(key), unquote(trim(after))));
        }
    }
    let gap: usize = find_white(line);
    if gap < n {
        let key = slice_subrange(line, 0, gap);
        let after = slice_subrange(line, gap + 1, n);
        assert(key@ =~= line@.take(gap as int));
        assert(after@ =~= line@.skip(gap + 1));
        return Some((string_of(key), unquote(trim(after))));
    }
    let nothing = slice_subrange(line, n, n);
    assert(nothing@ =~= Seq::<char>::empty());
    Some((string_of(line), unquote(trim(nothing))))
}

/// The index of the last colon, if there is one.
fn find_last_colon(s: &[char]) -> (out: Option<usize>)
    ensures
        match out {
            Some(k) => k == last_colon(s@) && k < s@.len(),
            None => last_colon(s@) == -1,
        },
{
    let n: usize = s.len();
    let mut k: usize = n;
    assert(s@.take(n as int) =~= s@);
    while k > 0
        invariant
            k <= n,
            n == s@.len(),
            last_colon(s@) == last_colon(s@.take(k as int)),
        decreases k,
    {
        assert(s@.take(k as int).drop_last() =~= s@.take(k - 1));
        if s[k - 1] == ':' {
            return Some(k - 1);
        }
        k -= 1;
    }
    None
}

/// The port that the slice stands for.
fn parse_port(s: &[char]) -> (out: Option<u16>)
    ensures
        out == port_of(s@),
{
    match parse_number(s, 10, 65535) {
        Some(v) => {
            assert(v <= 65535) by {
                assert(number(s@, 10, 65535)->0 <= 65535);
            }
            Some(v as u16)
        },
        None => None,
    }
}

/// The first hop of a `ProxyJump`, which is all that is supported.
pub fn parse_proxy_jump(value: &str) -> (out: Option<RemoteProfile>)
    ensures
        match out {
            Some(p) => jump_of(value@) == Some(p@),
            None => jump_of(value@) is None,
        },
{
    let chars: Vec<char> = chars_of(value);
    let comma: usize = find_char(chars.as_slice(), ',');
    let hop = slice_subrange(chars.as_slice(), 0, comma);
    assert(hop@ =~= value@.take(comma as int));
    let first = trim(hop);
    let n: usize = first.len();
    let at: usize = find_char(first, '@');
    let user: String = if at < n {
        string_of(slice_subrange(first, 0, at))
    } else {
        String::new()
    };
    let rest = if at < n {
        slice_subrange(first, at + 1, n)
    } else {
        first
    };
    proof {
        if at < n {
            assert(user@ =~= first@.take(at as int));
            assert(rest@ =~= first@.skip(at + 1));
        }
    }
    let mut host = rest;
    let mut port: u16 = DEFAULT_SSH_PORT;
    if let Some(colon) = find_last_colon(rest) {
        let digits = slice_subrange(rest, colon + 1, rest.len());
        assert(digits@ =~= rest@.skip(colon + 1));
        if let Some(p) = parse_port(digits) {
            host = slice_subrange(rest, 0, colon);
            assert(host@ =~= rest@.take(colon as int));
            port = p;
        }
    }
    if is_blank(host) {
        return None;
    }
    let base: RemoteProfile = RemoteProfile::default();
    let p = RemoteProfile { host: string_of(host), user, port, ..base };
    assert(p@ =~= RemoteModel { host: host@, user: user@, port, ..default_remote() });
    Some(p)
}

/// One section, collected before it is turned into connections.
pub struct SshConfigBlock {
    pub started: bool,
    pub aliases: Vec<String>,
    pub hostname: Option<String>,
    pub user: Option<String>,
    pub port: Option<u16>,
    pub identity: Option<String>,
    pub jump: Option<RemoteProfile>,
}

impl View for SshConfigBlock {
    type V = BlockModel;

    open spec fn view(&self) -> BlockModel {
        BlockModel {
            started: self.started,
            aliases: contents(self.aliases@),
            hostname: optional(self.hostname),
            user: optional(self.user),
            port: self.port,
            identity: optional(self.identity),
            jump: match self.jump {
                Some(p) => Some(p@),
                None => None,
            },
        }
    }
}

impl Default for SshConfigBlock {
    fn default() -> (block: SshConfigBlock)
        ensures
            block@ == BlockModel::fresh(),
    {
        let block = SshConfigBlock {
            started: false,
            aliases: Vec::new(),
            hostname: None,
            user: None,
            port: None,
            identity: None,
            jump: None,
        };
        assert(block@ =~= BlockModel::fresh());
        block
    }
}

/// Whether the key is `name`, in any case.
fn key_is(key: &str, name: &str) -> (yes: bool)
    ensures
        yes == same_letters(key@, name@),
{
    same_ignoring_case(chars_of(key).as_slice(), chars_of(name).as_slice())
}

/// A copy of a text that may be missing, empty where it is.
fn text_or_empty(s: &Option<String>) -> (out: String)
    ensures
        out@ == or_empty(optional(*s)),
{
    match s {
        Some(s) => s.clone(),
        None => {
            let out = String::new();
            assert(out@ =~= Seq::<char>::empty());
            out
        },
    }
}

impl SshConfigBlock {
    /// Takes over one option. The first value wins. The path of an
    /// `IdentityFile` that starts at the home directory is expanded.
    pub fn set(&mut self, key: &str, value: &str)
        ensures
            exists|home: Option<Seq<char>>, path: Seq<char>| #[trigger]
                stands_for(value@, home, path) && final(self)@ == old(self)@.with(
                    with_path(Directive { key: key@, value: value@ }, path),
                ),
    {
        let home: Option<String> = home_directory();
        self.set_in(key, value, &home);
    }

    /// Takes over one option, with the home directory given. Where there is none,
    /// a path stays as it is written.
    pub fn set_in(&mut self, key: &str, value: &str, home: &Option<String>)
        ensures
            exists|path: Seq<char>| #[trigger]
                stands_for(value@, optional(*home), path) && final(self)@ == old(self)@.with(
                    with_path(Directive { key: key@, value: value@ }, path),
                ),
    {
        let ghost before = self@;
        let ghost d = Directive { key: key@, value: value@ };
        let ghost mut path = home_expanded(0, value@, optional(*home));
        if key_is(key, "hostname") && self.hostname.is_none() {
            self.hostname = Some(text_copy(value));
        } else if key_is(key, "user") && self.user.is_none() {
            self.user = Some(text_copy(value));
        } else if key_is(key, "port") && self.port.is_none() {
            self.port = parse_port(chars_of(value).as_slice());
        } else if key_is(key, "identityfile") && self.identity.is_none() {
            let expanded: String = expand_home_in(value, home);
            proof {
                path = expanded@;
            }
            self.identity = Some(expanded);
        } else if key_is(key, "proxyjump") && self.jump.is_none() {
            self.jump = parse_proxy_jump(value);
        }
        proof {
            if same_letters(key@, "identityfile"@) {
                lemma_path_key_alone(key@);
            }
            assert(stands_for(value@, optional(*home), path));
            assert(self@ =~= before.with(with_path(d, path)));
        }
    }

    /// The connections of the section, if it has any.
    pub fn into_profiles(self) -> (out: Option<Vec<RemoteProfile>>)
        ensures
            match out {
                Some(list) => remote_models(list@) == self@.profiles() && list@.len() > 0,
                None => self@.profiles() == Seq::<RemoteModel>::empty(),
            },
    {
        let hostname: String = match &self.hostname {
            Some(h) => h.clone(),
            None => return None,
        };
        if is_blank(chars_of(hostname.as_str()).as_slice()) {
            return None;
        }
        let mut list: Vec<RemoteProfile> = Vec::new();
        let n: usize = self.aliases.len();
        let ghost names = contents(self.aliases@);
        let mut i: usize = 0;
        assert(names.take(0) =~= Seq::<Seq<char>>::empty());
        assert(remote_models(list@) =~= Seq::<RemoteModel>::empty());
        while i < n
            invariant
                i <= n,
                n == self.aliases@.len(),
                names == contents(self.aliases@),
                optional(self.hostname) == Some(hostname@),
                remote_models(list@) == aliased(self@, names.take(i as int)),
            decreases n - i,
        {
            assert(names.take(i + 1).drop_last() =~= names.take(i as int));
            let alias: &String = &self.aliases[i];
            assert(names.take(i + 1).last() == alias@);
            let chars: Vec<char> = chars_of(alias.as_str());
            if !has_char(chars.as_slice(), '*') && !has_char(chars.as_slice(), '?') {
                let p = RemoteProfile {
                    name: alias.clone(),
                    host: hostname.clone(),
                    user: text_or_empty(&self.user),
                    port: match self.port {
                        Some(p) => p,
                        None => DEFAULT_SSH_PORT,
                    },
                    identity: text_or_empty(&self.identity),
                    group: String::new(),
                    color: String::new(),
                    jump: match &self.jump {
                        Some(j) => Some(Box::new(j.duplicate())),
                        None => None,
                    },
                    forwards: Vec::new(),
                };
                assert(p@ =~= self@.profile(alias@));
                let ghost before = list@;
                list.push(p);
                assert(remote_models(list@) =~= remote_models(before).push(p@));
            }
            i += 1;
        }
        assert(names.take(n as int) =~= names);
        if list.len() == 0 {
            None
        } else {
            Some(list)
        }
    }
}

/// Appends the connections of a finished section.
fn finish_block(list: &mut Vec<RemoteProfile>, block: SshConfigBlock)
    ensures
        remote_models(final(list)@) == remote_models(old(list)@) + (if block.started {
            block@.profiles()
        } else {
            Seq::empty()
        }),
{
    let ghost before = remote_models(list@);
    if block.started {
        let ghost profiles = block@.profiles();
        match block.into_profiles() {
            Some(parsed) => {
                let mut parsed = parsed;
                let ghost tail = parsed@;
                list.append(&mut parsed);
                assert(remote_models(list@) =~= before + remote_models(tail));
            },
            None => {
                assert(before + profiles =~= before);
            },
        }
    } else {
        assert(before + Seq::<RemoteModel>::empty() =~= before);
    }
}

/// What is still to come: the connections of the section that is being read,
/// with the options that follow, and those of the later sections.
spec fn pending(block: BlockModel, seen: Seq<Directive>, rest: Seq<Directive>) -> Seq<RemoteModel> {
    let n = first_section(rest);
    if block.started {
        section(block.aliases, seen + rest.take(n)).profiles() + imported(rest.skip(n))
    } else {
        imported(rest)
    }
}

proof fn lemma_first_section(ds: Seq<Directive>)
    ensures
        0 <= first_section(ds) <= ds.len(),
        first_section(ds) < ds.len() ==> starts_section(ds[first_section(ds)]),
    decreases ds.len(),
{
    if ds.len() > 0 && !starts_section(ds[0]) {
        lemma_first_section(ds.skip(1));
        let k = first_section(ds.skip(1));
        if k < ds.len() - 1 {
            assert(ds.skip(1)[k] == ds[k + 1]);
        }
    }
}

proof fn lemma_section_grows(aliases: Seq<Seq<char>>, seen: Seq<Directive>, d: Directive)
    ensures
        section(aliases, seen.push(d)) == section(aliases, seen).with(d),
{
    assert(seen.push(d).drop_last() =~= seen);
    reveal_strlit("hostname");
    reveal_strlit("user");
    reveal_strlit("port");
    reveal_strlit("identityfile");
    reveal_strlit("proxyjump");
    let names = seq!["hostname"@, "user"@, "port"@, "identityfile"@, "proxyjump"@];
    assert forall|a: Seq<char>, b: Seq<char>| same_letters(a, b) implies a.len() == b.len() by {
        assert(crate::text::lowered(a).len() == a.len());
        assert(crate::text::lowered(b).len() == b.len());
    }
    if same_letters(d.key, "user"@) {
        assert(!same_letters(d.key, "port"@)) by {
            if same_letters(d.key, "port"@) {
                assert(crate::text::lowered("user"@)[0] == 'u');
                assert(crate::text::lowered("port"@)[0] == 'p');
            }
        }
    }
}

/// One more option inside a section, or before the first.
proof fn lemma_pending_option(
    block: BlockModel,
    seen: Seq<Directive>,
    rest: Seq<Directive>,
)
    requires
        rest.len() > 0,
        !starts_section(rest[0]),
    ensures
        pending(block, seen, rest) == pending(block, seen.push(rest[0]), rest.skip(1)),
{
    let d = rest[0];
    let next = rest.skip(1);
    let n = first_section(rest);
    let m = first_section(next);
    lemma_first_section(next);
    assert(n == m + 1);
    assert(seen + rest.take(n) =~= seen.push(d) + next.take(m));
    assert(rest.skip(n) =~= next.skip(m));
    if !block.started {
        if m < next.len() {
            assert(rest[n] == next[m]);
            assert(rest.skip(n + 1) =~= next.skip(m + 1));
        }
    }
}

/// One option that starts a section.
proof fn lemma_pending_section(block: BlockModel, seen: Seq<Directive>, rest: Seq<Directive>)
    requires
        rest.len() > 0,
        starts_section(rest[0]),
        block.started ==> block == section(block.aliases, seen),
    ensures
        ({
            let next = rest.skip(1);
            let m = first_section(next);
            pending(block, seen, rest) == (if block.started {
                block.profiles()
            } else {
                Seq::empty()
            }) + (if starts_host(rest[0]) {
                section(words(rest[0].value), next.take(m)).profiles() + imported(next.skip(m))
            } else {
                imported(next)
            })
        }),
{
    let next = rest.skip(1);
    let m = first_section(next);
    lemma_first_section(next);
    assert(first_section(rest) == 0);
    assert(rest.skip(0) =~= rest);
    assert(seen + rest.take(0) =~= seen);
    assert(Seq::<RemoteModel>::empty() + imported(rest) =~= imported(rest));
    if !starts_host(rest[0]) {
        lemma_imported_from_section(next);
    }
}

/// What stands before the first section does not count.
proof fn lemma_imported_from_section(ds: Seq<Directive>)
    ensures
        imported(ds.skip(first_section(ds))) == imported(ds),
{
    let h = first_section(ds);
    lemma_first_section(ds);
    let tail = ds.skip(h);
    if h < ds.len() {
        assert(tail[0] == ds[h]);
        assert(tail.skip(1) =~= ds.skip(h + 1));
    }
}

/// Whether what was read so far is in the list, but for the section that is
/// still being read, whatever follows.
spec fn accounted(
    read: Seq<Directive>,
    list: Seq<RemoteModel>,
    block: BlockModel,
    seen: Seq<Directive>,
) -> bool {
    forall|tail: Seq<Directive>| #[trigger]
        imported(read + tail) == list + pending(block, seen, tail)
}

/// One more option inside a section, or before the first.
proof fn lemma_accounted_option(
    read: Seq<Directive>,
    list: Seq<RemoteModel>,
    block: BlockModel,
    seen: Seq<Directive>,
    d: Directive,
    next: BlockModel,
)
    requires
        accounted(read, list, block, seen),
        !starts_section(d),
        next.started == block.started,
        next.aliases == block.aliases,
    ensures
        accounted(read.push(d), list, next, seen.push(d)),
{
    assert forall|tail: Seq<Directive>| #[trigger]
        imported(read.push(d) + tail) == list + pending(next, seen.push(d), tail) by {
        let rest = seq![d] + tail;
        assert(read.push(d) + tail =~= read + rest);
        assert(rest.skip(1) =~= tail);
        assert(imported(read + rest) == list + pending(block, seen, rest));
        lemma_pending_option(block, seen, rest);
    }
}

/// One option that starts a section: the one before it is complete.
proof fn lemma_accounted_section(
    read: Seq<Directive>,
    list: Seq<RemoteModel>,
    block: BlockModel,
    seen: Seq<Directive>,
    d: Directive,
    next: BlockModel,
)
    requires
        accounted(read, list, block, seen),
        starts_section(d),
        block.started ==> block == section(block.aliases, seen),
        next.started == starts_host(d),
        next.started ==> next.aliases == words(d.value),
    ensures
        accounted(
            read.push(d),
            list + (if block.started {
                block.profiles()
            } else {
                Seq::empty()
            }),
            next,
            Seq::empty(),
        ),
{
    let mine = if block.started {
        block.profiles()
    } else {
        Seq::empty()
    };
    let none = Seq::<Directive>::empty();
    assert forall|tail: Seq<Directive>| #[trigger]
        imported(read.push(d) + tail) == list + mine + pending(next, none, tail) by {
        let rest = seq![d] + tail;
        assert(read.push(d) + tail =~= read + rest);
        assert(rest.skip(1) =~= tail);
        assert(imported(read + rest) == list + pending(block, seen, rest));
        lemma_pending_section(block, seen, rest);
        let m = first_section(tail);
        assert(none + tail.take(m) =~= tail.take(m));
        assert(list + (mine + pending(next, none, tail)) =~= list + mine + pending(
            next,
            none,
            tail,
        ));
    }
}

/// The connections of the configuration, with paths that start at the home
/// directory expanded, where there is one.
fn read_hosts(text: &str, home: &Option<String>) -> (out: Vec<RemoteProfile>)
    ensures
        exists|read: Seq<Directive>|
            read_as(directives(lines(text@)), optional(*home), read) && remote_models(out@)
                == all_resolved(#[trigger] imported(read)),
{
    let chars: Vec<char> = chars_of(text);
    let list: Vec<String> = split_lines(chars.as_slice());
    let n: usize = list.len();
    let ghost all = contents(list@);
    let mut out: Vec<RemoteProfile> = Vec::new();
    let mut block: SshConfigBlock = SshConfigBlock::default();
    let ghost mut seen: Seq<Directive> = Seq::empty();
    let ghost mut written: Seq<Directive> = Seq::empty();
    let ghost mut read: Seq<Directive> = Seq::empty();
    let mut i: usize = 0;
    proof {
        assert(all.skip(0) =~= all);
        assert(written + directives(all) =~= directives(all));
        assert(remote_models(out@) =~= Seq::<RemoteModel>::empty());
        assert forall|tail: Seq<Directive>| #[trigger]
            imported(read + tail) == remote_models(out@) + pending(block@, seen, tail) by {
            assert(read + tail =~= tail);
            assert(remote_models(out@) + imported(tail) =~= imported(tail));
        }
    }
    while i < n
        invariant
            i <= n,
            n == list@.len(),
            all == contents(list@),
            directives(all) == written + directives(all.skip(i as int)),
            read_as(written, optional(*home), read),
            block.started ==> block@ == section(block@.aliases, seen),
            accounted(read, remote_models(out@), block@, seen),
        decreases n - i,
    {
        let ghost rest = directives(all.skip(i as int));
        let ghost next = directives(all.skip(i + 1));
        proof {
            assert(all.skip(i as int).skip(1) =~= all.skip(i + 1));
            assert(all.skip(i as int)[0] == list@[i as int]@);
        }
        if let Some(pair) = ssh_directive(list[i].as_str()) {
            let ghost d = as_directive(pair);
            let ghost before = block@;
            let ghost done = remote_models(out@);
            proof {
                assert(rest =~= seq![d] + next);
                assert(written + rest =~= written.push(d) + next);
            }
            let host = key_is(pair.0.as_str(), "Host");
            if host || key_is(pair.0.as_str(), "Match") {
                let old_block = block;
                finish_block(&mut out, old_block);
                block = SshConfigBlock::default();
                if host {
                    block.started = true;
                    block.aliases = split_words(chars_of(pair.1.as_str()).as_slice());
                }
                proof {
                    if host {
                        assert(block@ =~= section(words(d.value), Seq::empty()));
                    }
                    lemma_accounted_section(read, done, before, seen, d, block@);
                    lemma_no_section_path(d);
                    lemma_read_as_push(written, optional(*home), read, d, d);
                    seen = Seq::empty();
                    read = read.push(d);
                    written = written.push(d);
                }
            } else {
                let ghost mut q = with_path(
                    d,
                    home_expanded(0, d.value, optional(*home)),
                );
                if block.started {
                    block.set_in(pair.0.as_str(), pair.1.as_str(), home);
                    proof {
                        let path = choose|path: Seq<char>| #[trigger]
                            stands_for(d.value, optional(*home), path) && block@ == before.with(
                                with_path(d, path),
                            );
                        q = with_path(d, path);
                    }
                }
                proof {
                    lemma_section_grows(before.aliases, seen, q);
                    lemma_accounted_option(read, done, before, seen, q, block@);
                    assert(reads_as(d, optional(*home), q));
                    lemma_read_as_push(written, optional(*home), read, d, q);
                    seen = seen.push(q);
                    read = read.push(q);
                    written = written.push(d);
                }
            }
        } else {
            assert(rest == next);
        }
        i += 1;
    }
    let ghost done = remote_models(out@);
    proof {
        let none = Seq::<Directive>::empty();
        assert(all.skip(n as int) =~= Seq::<Seq<char>>::empty());
        assert(written + none =~= written);
        assert(read + none =~= read);
        assert(imported(read + none) == done + pending(block@, seen, none));
        assert(seen + none.take(0) =~= seen);
        assert(block@.profiles() + Seq::<RemoteModel>::empty() =~= block@.profiles());
    }
    finish_block(&mut out, block);
    resolve_jump_aliases(&mut out);
    assert(read_as(directives(lines(text@)), optional(*home), read));
    assert(remote_models(out@) == all_resolved(imported(read)));
    out
}

/// The connections of the configuration, with paths as they are written there.
pub fn parse_hosts(text: &str) -> (out: Vec<RemoteProfile>)
    ensures
        remote_models(out@) == hosts_in(text@),
{
    let out: Vec<RemoteProfile> = read_hosts(text, &None);
    proof {
        let ds = directives(lines(text@));
        let read = choose|read: Seq<Directive>|
            read_as(ds, None, read) && remote_models(out@) == all_resolved(
                #[trigger] imported(read),
            );
        assert forall|i: int| 0 <= i < ds.len() implies ds[i] == #[trigger] read[i] by {
            assert(reads_as(ds[i], None, read[i]));
        }
        assert(read =~= ds);
    }
    out
}

/// The first connection with the name.
fn find_named<'a>(list: &'a Vec<RemoteProfile>, name: &str) -> (out: Option<&'a RemoteProfile>)
    ensures
        match out {
            Some(p) => named(remote_models(list@), name@) == Some(p@),
            None => named(remote_models(list@), name@) is None,
        },
{
    let n: usize = list.len();
    let ghost all = remote_models(list@);
    let mut i: usize = 0;
    assert(all.skip(0) =~= all);
    while i < n
        invariant
            i <= n,
            n == list@.len(),
            all == remote_models(list@),
            named(all, name@) == named(all.skip(i as int), name@),
        decreases n - i,
    {
        assert(all.skip(i as int).skip(1) =~= all.skip(i + 1));
        assert(all.skip(i as int)[0] == list@[i as int]@);
        if crate::text::same_str(list[i].name.as_str(), name) {
            return Some(&list[i]);
        }
        i += 1;
    }
    None
}

/// A jump host normally names another alias, and is then replaced by what that
/// alias stands for, losing only a nested jump.
pub fn resolve_jump_aliases(list: &mut Vec<RemoteProfile>)
    ensures
        remote_models(final(list)@) == all_resolved(remote_models(old(list)@)),
{
    let n: usize = list.len();
    let ghost all = remote_models(list@);
    let mut out: Vec<RemoteProfile> = Vec::new();
    let mut i: usize = 0;
    while i < n
        invariant
            i <= n,
            n == list@.len(),
            all == remote_models(list@),
            out@.len() == i,
            forall|k: int| 0 <= k < i ==> (#[trigger] out@[k])@ == resolved(all[k], all),
        decreases n - i,
    {
        let mut p: RemoteProfile = list[i].duplicate();
        assert(p@ == all[i as int]);
        if let Some(jump) = &list[i].jump {
            if let Some(target) = find_named(list, jump.host.as_str()) {
                let mut hop: RemoteProfile = jump.duplicate();
                hop.host = target.host.clone();
                if hop.user.as_str().is_empty() {
                    hop.user = target.user.clone();
                }
                if hop.port == DEFAULT_SSH_PORT {
                    hop.port = target.port;
                }
                if hop.identity.as_str().is_empty() {
                    hop.identity = target.identity.clone();
                }
                let ghost was = p@;
                assert(hop@ =~= filled_jump(jump@, target@));
                p.jump = Some(Box::new(hop));
                assert(list@[i as int].model().jump == Some(Box::new(jump.model())));
                assert(p@ =~= RemoteModel { jump: Some(Box::new(hop@)), ..was });
            }
        }
        proof {
            assert(p@ =~= resolved(all[i as int], all));
        }
        out.push(p);
        i += 1;
    }
    *list = out;
    assert(remote_models(list@) =~= all_resolved(all));
}

/// What follows the `~/` of a path in the home directory.
pub open spec fn home_path(value: Seq<char>) -> Option<Seq<char>> {
    if value.len() >= 2 && value[0] == '~' && value[1] == '/' {
        Some(value.skip(2))
    } else {
        None
    }
}

/// Whether the path starts at the home directory.
pub open spec fn starts_at_home(value: Seq<char>) -> bool {
    value == "~"@ || home_path(value) is Some
}

/// The path that a written one stands for. `home` is the home directory, where
/// there is one, and `joined` that directory joined with what follows the `~/`.
pub open spec fn expanded(value: Seq<char>, home: Option<Seq<char>>, joined: Seq<char>) -> Seq<
    char,
> {
    match home {
        None => value,
        Some(home) => if home_path(value) is Some {
            joined
        } else if value == "~"@ {
            home
        } else {
            value
        },
    }
}

/// A directory joined with what follows it, in the way of a platform: the
/// separator, and what counts as an absolute path, differ from one to the next.
pub uninterp spec fn path_joined(platform: int, base: Seq<char>, rest: Seq<char>) -> Seq<char>;

/// The path that a written one stands for on a platform, given the home directory
/// there, if there is one.
pub open spec fn home_expanded(platform: int, value: Seq<char>, home: Option<Seq<char>>) -> Seq<
    char,
> {
    expanded(value, home, path_joined(platform, home->0, home_path(value)->0))
}

/// Whether `path` is what the written path stands for with the given home
/// directory, or with none, on some platform.
pub open spec fn stands_for(written: Seq<char>, home: Option<Seq<char>>, path: Seq<char>) -> bool {
    exists|platform: int| path == #[trigger] home_expanded(platform, written, home)
}

proof fn lemma_away_from_home(written: Seq<char>, home: Option<Seq<char>>)
    requires
        !starts_at_home(written),
    ensures
        stands_for(written, home, written),
{
    assert(home_expanded(0, written, home) == written);
}

/// What a written path stands for. One that does not start at the home directory
/// stands for itself, and without a home directory every one does. One below the
/// home directory stands for that directory joined with the rest of it, in this
/// order, and `~` for the home directory.
pub proof fn law_only_the_home_is_expanded(
    written: Seq<char>,
    home: Option<Seq<char>>,
    path: Seq<char>,
)
    requires
        stands_for(written, home, path),
    ensures
        !starts_at_home(written) || home is None ==> path == written,
        home is Some && home_path(written) is Some ==> exists|platform: int|
            path == #[trigger] path_joined(platform, home->0, home_path(written)->0),
        home is Some && written == "~"@ ==> path == home->0,
{
    let platform = choose|platform: int|
        path == #[trigger] home_expanded(platform, written, home);
    reveal_strlit("~");
    if home is Some && home_path(written) is Some {
        assert(path == path_joined(platform, home->0, home_path(written)->0));
    }
}

/// An option with its path in place of the written one: `IdentityFile` is the
/// only option that holds a path.
pub open spec fn with_path(d: Directive, path: Seq<char>) -> Directive {
    if same_letters(d.key, "identityfile"@) {
        Directive { value: path, ..d }
    } else {
        d
    }
}

/// Whether `q` is what a written option is read as with the given home directory.
pub open spec fn reads_as(d: Directive, home: Option<Seq<char>>, q: Directive) -> bool {
    if same_letters(d.key, "identityfile"@) {
        q == (Directive { value: q.value, ..d }) && stands_for(d.value, home, q.value)
    } else {
        q == d
    }
}

/// Whether each option is read as the one at its place.
pub open spec fn read_as(
    written: Seq<Directive>,
    home: Option<Seq<char>>,
    read: Seq<Directive>,
) -> bool {
    written.len() == read.len() && forall|i: int|
        0 <= i < written.len() ==> reads_as(written[i], home, #[trigger] read[i])
}

/// Whether two connections are the same but for their paths, which are those that
/// the written ones stand for with the given home directory.
pub open spec fn same_at_home(
    written: RemoteModel,
    home: Option<Seq<char>>,
    p: RemoteModel,
) -> bool {
    &&& p == RemoteModel { identity: p.identity, jump: p.jump, ..written }
    &&& stands_for(written.identity, home, p.identity)
    &&& match (written.jump, p.jump) {
        (Some(a), Some(b)) => *b == (RemoteModel { identity: b.identity, ..*a }) && stands_for(
            a.identity,
            home,
            b.identity,
        ),
        (None, None) => true,
        _ => false,
    }
}

/// Whether two lists hold the same connections, one with paths as they are
/// written and one with what these stand for with the given home directory.
pub open spec fn all_at_home(
    written: Seq<RemoteModel>,
    home: Option<Seq<char>>,
    list: Seq<RemoteModel>,
) -> bool {
    written.len() == list.len() && forall|i: int|
        0 <= i < written.len() ==> same_at_home(written[i], home, #[trigger] list[i])
}

/// The home directory, by `directories::BaseDirs::new` and
/// `directories::BaseDirs::home_dir`, or where that finds none by
/// `directories::UserDirs::new` and `directories::UserDirs::home_dir`. Both name
/// the same directory. The first reads no file of the user, which the second does
/// on Linux once there is a home directory; the second needs no more than the
/// profile folder on Windows. Nothing is claimed of the directory: it depends on
/// the user and the machine.
#[verifier::external_body]
fn home_directory() -> (out: Option<String>) {
    directories::BaseDirs::new()
        .map(|dirs| dirs.home_dir().to_string_lossy().into_owned())
        .or_else(
            || directories::UserDirs::new().map(|dirs| dirs.home_dir().to_string_lossy().into_owned()),
        )
}

/// `std::path::Path::join`, as text. The joined path follows from the two parts
/// and the platform alone. What its text is on a given platform is left unsaid.
#[verifier::external_body]
fn join_path(base: &str, rest: &str) -> (out: String)
    ensures
        exists|platform: int| out@ == #[trigger] path_joined(platform, base@, rest@),
{
    std::path::Path::new(base).join(rest).to_string_lossy().into_owned()
}

/// What follows the `~/` of a path in the home directory.
pub fn path_below_home(value: &str) -> (out: Option<String>)
    ensures
        optional(out) == home_path(value@),
{
    let chars: Vec<char> = chars_of(value);
    let n: usize = chars.len();
    if n >= 2 && chars[0] == '~' && chars[1] == '/' {
        let rest = slice_subrange(chars.as_slice(), 2, n);
        assert(rest@ =~= value@.skip(2));
        Some(string_of(rest))
    } else {
        None
    }
}

/// Expands a leading `~`, given the home directory and what joining it with the
/// rest of the path has led to.
pub fn expand_home_with(value: &str, home: &Option<String>, joined: String) -> (out: String)
    ensures
        out@ == expanded(value@, optional(*home), joined@),
{
    match home {
        None => text_copy(value),
        Some(home) => {
            if path_below_home(value).is_some() {
                joined
            } else if crate::text::same_str(value, "~") {
                text_copy(home.as_str())
            } else {
                text_copy(value)
            }
        },
    }
}

/// Expands a leading `~` to the given home directory, where there is one.
pub fn expand_home_in(value: &str, home: &Option<String>) -> (out: String)
    ensures
        stands_for(value@, optional(*home), out@),
{
    let ghost mut platform = 0int;
    let joined: String = match (home, path_below_home(value)) {
        (Some(home), Some(rest)) => {
            let joined: String = join_path(home.as_str(), rest.as_str());
            proof {
                platform = choose|platform: int|
                    joined@ == #[trigger] path_joined(platform, home@, rest@);
            }
            joined
        },
        _ => String::new(),
    };
    let out: String = expand_home_with(value, home, joined);
    assert(out@ == home_expanded(platform, value@, optional(*home)));
    out
}

/// Expands a leading `~` to the home directory of the user, as OpenSSH does for
/// `IdentityFile`. Which directory that is, and whether there is one, depends on
/// the machine.
pub fn expand_home(value: &str) -> (out: String)
    ensures
        exists|home: Option<Seq<char>>| #[trigger] stands_for(value@, home, out@),
        !starts_at_home(value@) ==> out@ == value@,
{
    let home: Option<String> = home_directory();
    let out: String = expand_home_in(value, &home);
    proof {
        law_only_the_home_is_expanded(value@, optional(home), out@);
    }
    out
}

/// Parses an OpenSSH client configuration, keeping only `Host` sections that
/// carry a `HostName`. Every alias on the `Host` line that is no pattern becomes
/// its own connection to that host. Global options before the first `Host`
/// line, `Include` and `Match` sections are ignored: this is a connection list,
/// not an OpenSSH client.
pub fn parse_ssh_config(text: &str) -> (out: Vec<RemoteProfile>)
    ensures
        exists|home: Option<Seq<char>>| #[trigger]
            all_at_home(hosts_in(text@), home, remote_models(out@)),
{
    let home: Option<String> = home_directory();
    parse_ssh_config_in(text, &home)
}

/// Parses an OpenSSH client configuration, with the home directory given. Paths
/// that start there are expanded.
pub fn parse_ssh_config_in(text: &str, home: &Option<String>) -> (out: Vec<RemoteProfile>)
    ensures
        all_at_home(hosts_in(text@), optional(*home), remote_models(out@)),
{
    let out: Vec<RemoteProfile> = read_hosts(text, home);
    proof {
        let ds = directives(lines(text@));
        let read = choose|read: Seq<Directive>|
            read_as(ds, optional(*home), read) && remote_models(out@) == all_resolved(
                #[trigger] imported(read),
            );
        lemma_same_hosts(ds, optional(*home), read);
    }
    out
}

/// Whether two sections say the same but for the path, which is the one that the
/// written one stands for.
spec fn near_block(b: BlockModel, home: Option<Seq<char>>, c: BlockModel) -> bool {
    &&& c == BlockModel { identity: c.identity, ..b }
    &&& match (b.identity, c.identity) {
        (Some(x), Some(y)) => stands_for(x, home, y),
        (None, None) => true,
        _ => false,
    }
}

/// Whether two connections are the same but for their own path.
spec fn near(p: RemoteModel, home: Option<Seq<char>>, q: RemoteModel) -> bool {
    q == RemoteModel { identity: q.identity, ..p } && stands_for(p.identity, home, q.identity)
}

/// Whether two lists hold the same connections but for their own paths.
spec fn near_lists(a: Seq<RemoteModel>, home: Option<Seq<char>>, b: Seq<RemoteModel>) -> bool {
    a.len() == b.len() && forall|i: int| 0 <= i < a.len() ==> near(a[i], home, #[trigger] b[i])
}

proof fn lemma_read_as_push(
    written: Seq<Directive>,
    home: Option<Seq<char>>,
    read: Seq<Directive>,
    d: Directive,
    q: Directive,
)
    requires
        read_as(written, home, read),
        reads_as(d, home, q),
    ensures
        read_as(written.push(d), home, read.push(q)),
{
    assert forall|i: int| 0 <= i < read.push(q).len() implies reads_as(
        written.push(d)[i],
        home,
        #[trigger] read.push(q)[i],
    ) by {
        if i < read.len() {
            assert(reads_as(written[i], home, read[i]));
        }
    }
}

proof fn lemma_read_as_part(
    written: Seq<Directive>,
    home: Option<Seq<char>>,
    read: Seq<Directive>,
    from: int,
    to: int,
)
    requires
        read_as(written, home, read),
        0 <= from <= to <= read.len(),
    ensures
        read_as(written.subrange(from, to), home, read.subrange(from, to)),
{
    assert forall|i: int| 0 <= i < to - from implies reads_as(
        written.subrange(from, to)[i],
        home,
        #[trigger] read.subrange(from, to)[i],
    ) by {
        assert(reads_as(written[from + i], home, read[from + i]));
    }
}

proof fn lemma_near_section(
    aliases: Seq<Seq<char>>,
    ds: Seq<Directive>,
    home: Option<Seq<char>>,
    qs: Seq<Directive>,
)
    requires
        read_as(ds, home, qs),
    ensures
        near_block(section(aliases, ds), home, section(aliases, qs)),
    decreases ds.len(),
{
    if ds.len() > 0 {
        let n = ds.len() - 1;
        lemma_read_as_part(ds, home, qs, 0, n);
        assert(ds.subrange(0, n) =~= ds.drop_last());
        assert(qs.subrange(0, n) =~= qs.drop_last());
        lemma_near_section(aliases, ds.drop_last(), home, qs.drop_last());
        assert(ds.drop_last().push(ds.last()) =~= ds);
        assert(qs.drop_last().push(qs.last()) =~= qs);
        lemma_section_grows(aliases, ds.drop_last(), ds.last());
        lemma_section_grows(aliases, qs.drop_last(), qs.last());
        assert(reads_as(ds[n], home, qs[n]));
        if same_letters(ds.last().key, "identityfile"@) {
            lemma_path_key_alone(ds.last().key);
        }
    }
}

proof fn lemma_near_aliased(
    b: BlockModel,
    home: Option<Seq<char>>,
    c: BlockModel,
    aliases: Seq<Seq<char>>,
)
    requires
        near_block(b, home, c),
    ensures
        near_lists(aliased(b, aliases), home, aliased(c, aliases)),
    decreases aliases.len(),
{
    if aliases.len() > 0 {
        lemma_near_aliased(b, home, c, aliases.drop_last());
        let x = aliased(b, aliases.drop_last());
        let y = aliased(c, aliases.drop_last());
        let p = b.profile(aliases.last());
        let q = c.profile(aliases.last());
        assert(near(p, home, q)) by {
            reveal_strlit("~");
            lemma_away_from_home(Seq::empty(), home);
        }
        if !wildcard(aliases.last()) {
            assert forall|i: int| 0 <= i < y.push(q).len() implies near(
                x.push(p)[i],
                home,
                #[trigger] y.push(q)[i],
            ) by {
                if i < y.len() {
                    assert(near(x[i], home, y[i]));
                }
            }
        }
    }
}

proof fn lemma_same_first_section(
    ds: Seq<Directive>,
    home: Option<Seq<char>>,
    qs: Seq<Directive>,
)
    requires
        read_as(ds, home, qs),
    ensures
        first_section(ds) == first_section(qs),
        0 <= first_section(ds) <= ds.len(),
    decreases ds.len(),
{
    if ds.len() > 0 {
        assert(reads_as(ds[0], home, qs[0]));
        lemma_read_as_part(ds, home, qs, 1, ds.len() as int);
        assert(ds.subrange(1, ds.len() as int) =~= ds.skip(1));
        assert(qs.subrange(1, ds.len() as int) =~= qs.skip(1));
        lemma_same_first_section(ds.skip(1), home, qs.skip(1));
    }
}

proof fn lemma_near_join(
    home: Option<Seq<char>>,
    a: Seq<RemoteModel>,
    b: Seq<RemoteModel>,
    c: Seq<RemoteModel>,
    d: Seq<RemoteModel>,
)
    requires
        near_lists(a, home, b),
        near_lists(c, home, d),
    ensures
        near_lists(a + c, home, b + d),
{
    assert forall|i: int| 0 <= i < (b + d).len() implies near(
        (a + c)[i],
        home,
        #[trigger] (b + d)[i],
    ) by {
        if i < b.len() {
            assert(near(a[i], home, b[i]));
        } else {
            assert(near(c[i - a.len()], home, d[i - b.len()]));
        }
    }
}

/// The same configuration, with paths as they are written and as they are read,
/// gives the same connections but for their paths.
proof fn lemma_near_imported(
    ds: Seq<Directive>,
    home: Option<Seq<char>>,
    qs: Seq<Directive>,
)
    requires
        read_as(ds, home, qs),
    ensures
        near_lists(imported(ds), home, imported(qs)),
    decreases ds.len(),
{
    lemma_same_first_section(ds, home, qs);
    let h = first_section(ds);
    let len = ds.len() as int;
    if h < len {
        lemma_first_section(ds);
        assert(reads_as(ds[h], home, qs[h]));
        lemma_no_section_path(ds[h]);
        lemma_read_as_part(ds, home, qs, h + 1, len);
        let rest = ds.skip(h + 1);
        let read = qs.skip(h + 1);
        assert(ds.subrange(h + 1, len) =~= rest);
        assert(qs.subrange(h + 1, len) =~= read);
        lemma_same_first_section(rest, home, read);
        let n = first_section(rest);
        let m = rest.len() as int;
        lemma_read_as_part(rest, home, read, 0, n);
        lemma_read_as_part(rest, home, read, n, m);
        assert(rest.subrange(0, n) =~= rest.take(n));
        assert(read.subrange(0, n) =~= read.take(n));
        assert(rest.subrange(n, m) =~= rest.skip(n));
        assert(read.subrange(n, m) =~= read.skip(n));
        lemma_near_imported(rest.skip(n), home, read.skip(n));
        if starts_host(ds[h]) {
            let aliases = words(ds[h].value);
            let b = section(aliases, rest.take(n));
            let c = section(aliases, read.take(n));
            lemma_near_section(aliases, rest.take(n), home, read.take(n));
            lemma_near_aliased(b, home, c, aliases);
            lemma_near_join(
                home,
                b.profiles(),
                c.profiles(),
                imported(rest.skip(n)),
                imported(read.skip(n)),
            );
        }
    }
}

/// No option that starts a section holds a path.
proof fn lemma_no_section_path(d: Directive)
    requires
        starts_section(d),
    ensures
        !same_letters(d.key, "identityfile"@),
{
    reveal_strlit("Host");
    reveal_strlit("Match");
    reveal_strlit("identityfile");
    assert forall|a: Seq<char>, b: Seq<char>| same_letters(a, b) implies a.len() == b.len() by {
        assert(crate::text::lowered(a).len() == a.len());
        assert(crate::text::lowered(b).len() == b.len());
    }
    assert("Host"@.len() == 4 && "Match"@.len() == 5 && "identityfile"@.len() == 12);
}

proof fn lemma_near_named(
    a: Seq<RemoteModel>,
    home: Option<Seq<char>>,
    b: Seq<RemoteModel>,
    name: Seq<char>,
)
    requires
        near_lists(a, home, b),
    ensures
        match (named(a, name), named(b, name)) {
            (Some(p), Some(q)) => near(p, home, q),
            (None, None) => true,
            _ => false,
        },
    decreases a.len(),
{
    if a.len() > 0 {
        assert(near(a[0], home, b[0]));
        assert forall|i: int| 0 <= i < a.skip(1).len() implies near(
            a.skip(1)[i],
            home,
            #[trigger] b.skip(1)[i],
        ) by {
            assert(near(a[i + 1], home, b[i + 1]));
        }
        lemma_near_named(a.skip(1), home, b.skip(1), name);
    }
}

proof fn lemma_same_hosts(ds: Seq<Directive>, home: Option<Seq<char>>, qs: Seq<Directive>)
    requires
        read_as(ds, home, qs),
    ensures
        all_at_home(all_resolved(imported(ds)), home, all_resolved(imported(qs))),
{
    let a = imported(ds);
    let b = imported(qs);
    lemma_near_imported(ds, home, qs);
    lemma_imported(ds);
    assert forall|i: int| 0 <= i < a.len() implies same_at_home(
        all_resolved(a)[i],
        home,
        #[trigger] all_resolved(b)[i],
    ) by {
        assert(near(a[i], home, b[i]));
        assert(jump_unkeyed(a[i]));
        if let Some(jump) = a[i].jump {
            reveal_strlit("~");
            lemma_away_from_home(jump.identity, home);
            lemma_near_named(a, home, b, jump.host);
        }
    }
}

/// A key that names a path names nothing else.
proof fn lemma_path_key_alone(key: Seq<char>)
    requires
        same_letters(key, "identityfile"@),
    ensures
        !same_letters(key, "hostname"@),
        !same_letters(key, "user"@),
        !same_letters(key, "port"@),
        !same_letters(key, "proxyjump"@),
{
    reveal_strlit("hostname");
    reveal_strlit("user");
    reveal_strlit("port");
    reveal_strlit("identityfile");
    reveal_strlit("proxyjump");
    assert forall|a: Seq<char>, b: Seq<char>| same_letters(a, b) implies a.len() == b.len() by {
        assert(crate::text::lowered(a).len() == a.len());
        assert(crate::text::lowered(b).len() == b.len());
    }
    assert(key.len() == 12);
}

/// Whether the jump host, if there is one, has no key of its own.
spec fn jump_unkeyed(p: RemoteModel) -> bool {
    p.jump is Some ==> p.jump->0.identity.len() == 0
}

/// Whether the jump host, if there is one, has no jump host and no forwards
/// itself.
pub open spec fn jump_is_plain(p: RemoteModel) -> bool {
    match p.jump {
        Some(jump) => jump.jump is None && jump.forwards.len() == 0,
        None => true,
    }
}

/// What an imported connection is like.
pub open spec fn importable(p: RemoteModel) -> bool {
    &&& !blank(p.host)
    &&& !wildcard(p.name)
    &&& p.group.len() == 0
    &&& p.color.len() == 0
    &&& p.forwards.len() == 0
    &&& jump_is_plain(p)
    &&& p.jump is Some ==> !blank(p.jump->0.host)
}

proof fn lemma_first_jump(ds: Seq<Directive>)
    ensures
        first_jump(ds) is Some ==> first_jump(ds)->0.jump is None && first_jump(
            ds,
        )->0.forwards.len() == 0 && first_jump(ds)->0.identity.len() == 0 && !blank(
            first_jump(ds)->0.host,
        ),
    decreases ds.len(),
{
    if ds.len() > 0 {
        lemma_first_jump(ds.drop_last());
    }
}

proof fn lemma_aliased(block: BlockModel, aliases: Seq<Seq<char>>)
    requires
        block.hostname is Some && !blank(block.hostname->0),
        block.jump is Some ==> block.jump->0.jump is None && block.jump->0.forwards.len() == 0
            && block.jump->0.identity.len() == 0 && !blank(block.jump->0.host),
    ensures
        forall|i: int|
            0 <= i < aliased(block, aliases).len() ==> importable(
                #[trigger] aliased(block, aliases)[i],
            ) && jump_unkeyed(aliased(block, aliases)[i]),
    decreases aliases.len(),
{
    if aliases.len() > 0 {
        let rest = aliased(block, aliases.drop_last());
        lemma_aliased(block, aliases.drop_last());
        assert forall|i: int| 0 <= i < aliased(block, aliases).len() implies importable(
            #[trigger] aliased(block, aliases)[i],
        ) && jump_unkeyed(aliased(block, aliases)[i]) by {
            if i < rest.len() {
                assert(aliased(block, aliases)[i] == rest[i]);
            } else {
                assert(aliased(block, aliases)[i] == block.profile(aliases.last()));
            }
        }
    }
}

proof fn lemma_imported(ds: Seq<Directive>)
    ensures
        forall|i: int|
            0 <= i < imported(ds).len() ==> importable(#[trigger] imported(ds)[i])
                && jump_unkeyed(imported(ds)[i]),
    decreases ds.len(),
{
    let h = first_section(ds);
    if 0 <= h < ds.len() {
        let rest = ds.skip(h + 1);
        let n = first_section(rest);
        if 0 <= n <= rest.len() {
            lemma_imported(rest.skip(n));
            if starts_host(ds[h]) {
                let block = section(words(ds[h].value), rest.take(n));
                let mine = block.profiles();
                lemma_first_jump(rest.take(n));
                if block.hostname is Some && !blank(block.hostname->0) {
                    lemma_aliased(block, block.aliases);
                }
                assert forall|i: int| 0 <= i < imported(ds).len() implies importable(
                    #[trigger] imported(ds)[i],
                ) && jump_unkeyed(imported(ds)[i]) by {
                    if i < mine.len() {
                        assert(imported(ds)[i] == mine[i]);
                    } else {
                        assert(imported(ds)[i] == imported(rest.skip(n))[i - mine.len()]);
                    }
                }
            } else {
                assert(imported(ds) == imported(rest.skip(n)));
            }
        }
    }
}

proof fn lemma_named(list: Seq<RemoteModel>, name: Seq<char>)
    ensures
        named(list, name) is Some ==> list.contains(named(list, name)->0),
    decreases list.len(),
{
    if list.len() > 0 {
        if list[0].name == name {
            assert(list.contains(list[0]));
        } else {
            lemma_named(list.skip(1), name);
            if named(list.skip(1), name) is Some {
                let t = named(list.skip(1), name)->0;
                let k = choose|k: int| 0 <= k < list.skip(1).len() && list.skip(1)[k] == t;
                assert(list[k + 1] == t);
            }
        }
    }
}

/// Every connection that is imported names a host to connect to and is called
/// by no pattern; it brings no group, colour or forwards along, and a jump host
/// that it has names a host too.
pub proof fn law_imports_are_addresses(text: Seq<char>)
    ensures
        forall|i: int| 0 <= i < hosts_in(text).len() ==> importable(#[trigger] hosts_in(text)[i]),
{
    let list = imported(directives(lines(text)));
    lemma_imported(directives(lines(text)));
    assert forall|i: int| 0 <= i < hosts_in(text).len() implies importable(
        #[trigger] hosts_in(text)[i],
    ) by {
        assert(importable(list[i]));
        assert(hosts_in(text)[i] == resolved(list[i], list));
        if list[i].jump is Some {
            let name = list[i].jump->0.host;
            lemma_named(list, name);
            if named(list, name) is Some {
                let k = choose|k: int| 0 <= k < list.len() && list[k] == named(list, name)->0;
                assert(importable(list[k]));
            }
        }
    }
}

/// No jump host that is imported has a jump host of its own.
pub proof fn law_jumps_have_no_jumps(text: Seq<char>)
    ensures
        forall|i: int|
            0 <= i < hosts_in(text).len() ==> jump_is_plain(#[trigger] hosts_in(text)[i]),
{
    law_imports_are_addresses(text);
    assert forall|i: int| 0 <= i < hosts_in(text).len() implies jump_is_plain(
        #[trigger] hosts_in(text)[i],
    ) by {
        assert(importable(hosts_in(text)[i]));
    }
}

/// The first value of a key wins: what follows in the section does not change
/// it.
pub proof fn law_first_value_wins(ds: Seq<Directive>, more: Seq<Directive>, key: Seq<char>)
    requires
        first_value(ds, key) is Some,
    ensures
        first_value(ds + more, key) == first_value(ds, key),
    decreases more.len(),
{
    if more.len() == 0 {
        assert(ds + more =~= ds);
    } else {
        assert((ds + more).drop_last() =~= ds + more.drop_last());
        law_first_value_wins(ds, more.drop_last(), key);
    }
}

/// Options before the first section do not leak into the import.
pub proof fn law_global_options_are_ignored(global: Seq<Directive>, ds: Seq<Directive>)
    requires
        forall|i: int| 0 <= i < global.len() ==> !starts_section(#[trigger] global[i]),
    ensures
        imported(global + ds) == imported(ds),
    decreases global.len(),
{
    if global.len() == 0 {
        assert(global + ds =~= ds);
    } else {
        let rest = global.skip(1);
        let all = global + ds;
        assert(!starts_section(global[0]));
        assert(all[0] == global[0]);
        assert(all.skip(1) =~= rest + ds);
        assert forall|i: int| 0 <= i < rest.len() implies !starts_section(#[trigger] rest[i]) by {
            assert(rest[i] == global[i + 1]);
        }
        law_global_options_are_ignored(rest, ds);
        lemma_first_section(all.skip(1));
        let h = first_section(all.skip(1));
        if h < all.skip(1).len() {
            assert(all.skip(1)[h] == all[h + 1]);
            assert(all.skip(1).skip(h + 1) =~= all.skip(h + 2));
        }
    }
}

/// A jump host that names an imported alias goes to the host of that alias.
pub proof fn law_jump_aliases_resolve(list: Seq<RemoteModel>, i: int)
    requires
        0 <= i < list.len(),
        list[i].jump is Some,
        named(list, list[i].jump->0.host) is Some,
    ensures
        all_resolved(list)[i].jump is Some,
        all_resolved(list)[i].jump->0.host == named(list, list[i].jump->0.host)->0.host,
        all_resolved(list)[i].host == list[i].host,
        all_resolved(list)[i].name == list[i].name,
{
}

/// Whether a text holds no character that opens a comment or a quoted value.
pub open spec fn unmarked(s: Seq<char>) -> bool {
    forall|i: int| 0 <= i < s.len() ==> (#[trigger] s[i]) != '#' && !quote_mark(s[i])
}

/// What stands between a key and its value: white space, or an equals sign that
/// may have white space around it.
pub open spec fn separates(gap: Seq<char>) -> bool {
    ||| blank(gap) && gap.len() > 0
    ||| exists|k: int|
        0 <= k < gap.len() && gap[k] == '=' && blank(#[trigger] gap.take(k)) && blank(
            gap.skip(k + 1),
        )
}

proof fn lemma_comment_starts_behind(s: Seq<char>, note: Seq<char>)
    requires
        unmarked(s),
        note.len() > 0 ==> note[0] == '#',
    ensures
        comment_start(s + note, None) == s.len(),
    decreases s.len(),
{
    let all = s + note;
    if s.len() == 0 {
        assert(all =~= note);
    } else {
        assert(all[0] == s[0]);
        assert(s[0] != '#' && !quote_mark(s[0]));
        assert(all.skip(1) =~= s.skip(1) + note);
        assert forall|i: int| 0 <= i < s.skip(1).len() implies (#[trigger] s.skip(1)[i]) != '#'
            && !quote_mark(s.skip(1)[i]) by {
            assert(s.skip(1)[i] == s[i + 1]);
        }
        lemma_comment_starts_behind(s.skip(1), note);
    }
}

proof fn lemma_blanks_are_unmarked(s: Seq<char>)
    requires
        blank(s),
    ensures
        unmarked(s),
{
    assert forall|i: int| 0 <= i < s.len() implies (#[trigger] s[i]) != '#' && !quote_mark(
        s[i],
    ) by {
        assert(white(s[i]));
    }
}

proof fn lemma_key_and_equals(key: Seq<char>, gap: Seq<char>, value: Seq<char>, k: int)
    requires
        key.len() > 0,
        !any_white(key),
        !key.contains('='),
        value.len() > 0,
        !white(value[0]),
        !white(value.last()),
        0 <= k < gap.len(),
        gap[k] == '=',
        blank(gap.take(k)),
        blank(gap.skip(k + 1)),
    ensures
        ({
            let line = key + gap + value;
            let equals = first_where(line, is_the('='));
            &&& equals < line.len()
            &&& trimmed(line.take(equals)) == key
            &&& trimmed(line.skip(equals + 1)) == value
        }),
{
    let line = key + gap + value;
    let at = key.len() + k;
    let none = Seq::<char>::empty();
    assert forall|j: int| 0 <= j < at implies !is_the('=')(#[trigger] line[j]) by {
        if j < key.len() {
            assert(key.contains(key[j]));
        } else {
            assert(gap.take(k)[j - key.len()] == line[j]);
            assert(white(line[j]));
        }
    }
    assert(line[at] == gap[k]);
    lemma_first_where(line, is_the('='), at);
    assert(!white(key[0]) && !white(key[key.len() - 1]));
    law_trimming_keeps_the_ink(none, key, gap.take(k));
    assert(line.take(at) =~= none + key + gap.take(k));
    law_trimming_keeps_the_ink(gap.skip(k + 1), value, none);
    assert(line.skip(at + 1) =~= gap.skip(k + 1) + value + none);
}

proof fn lemma_key_and_blank(key: Seq<char>, gap: Seq<char>, value: Seq<char>)
    requires
        key.len() > 0,
        !any_white(key),
        !key.contains('='),
        value.len() > 0,
        value[0] != '=',
        !white(value[0]),
        !white(value.last()),
        gap.len() > 0,
        blank(gap),
    ensures
        ({
            let line = key + gap + value;
            let equals = first_where(line, is_the('='));
            let space = first_where(line, is_white());
            &&& equals >= line.len() || any_white(trimmed(line.take(equals)))
            &&& space < line.len()
            &&& line.take(space) == key
            &&& trimmed(line.skip(space + 1)) == value
        }),
{
    let line = key + gap + value;
    let none = Seq::<char>::empty();
    let n = key.len() as int;
    let m = n + gap.len();
    assert forall|j: int| 0 <= j < n implies !is_white()(#[trigger] line[j]) by {
        assert(line[j] == key[j]);
    }
    assert(line[n] == gap[0] && white(gap[0]));
    lemma_first_where(line, is_white(), n);
    assert(line.take(n) =~= key);
    assert(blank(gap.skip(1))) by {
        assert forall|i: int| 0 <= i < gap.skip(1).len() implies white(
            #[trigger] gap.skip(1)[i],
        ) by {
            assert(gap.skip(1)[i] == gap[i + 1]);
        }
    }
    law_trimming_keeps_the_ink(gap.skip(1), value, none);
    assert(line.skip(n + 1) =~= gap.skip(1) + value + none);
    let equals = first_where(line, is_the('='));
    lemma_first_where_bounds(line, is_the('='));
    if equals < line.len() {
        assert(line[equals] == '=');
        if equals < n {
            assert(key.contains(line[equals]));
        } else if equals < m {
            assert(white(gap[equals - n]));
        }
        assert(line[m] == value[0]);
        assert(equals > m);
        let head = line.take(equals);
        assert(head[0] == key[0] && !white(key[0]));
        lemma_first_where(head, is_ink(), 0);
        assert(head.skip(0) =~= head);
        lemma_trim_back_reaches(head, m);
        assert(white(trimmed(head)[n]));
    }
}

proof fn lemma_trim_back_reaches(s: Seq<char>, k: int)
    requires
        0 <= k < s.len(),
        !white(s[k]),
    ensures
        k < trim_back(s).len() <= s.len(),
        trim_back(s) == s.take(trim_back(s).len() as int),
    decreases s.len(),
{
    if white(s.last()) {
        lemma_trim_back_reaches(s.drop_last(), k);
        let n = trim_back(s).len() as int;
        assert(s.drop_last().take(n) =~= s.take(n));
    } else {
        assert(s.take(s.len() as int) =~= s);
    }
}

/// An option reads the same however it is written: with white space between the
/// key and the value or with an equals sign, with white space around all of it,
/// and with a comment behind it.
pub proof fn law_options_read_alike(
    before: Seq<char>,
    key: Seq<char>,
    gap: Seq<char>,
    value: Seq<char>,
    behind: Seq<char>,
    note: Seq<char>,
)
    requires
        blank(before),
        key.len() > 0,
        !any_white(key),
        !key.contains('='),
        unmarked(key),
        separates(gap),
        value.len() > 0,
        !white(value[0]),
        !white(value.last()),
        value[0] != '=',
        unmarked(value),
        blank(behind),
        note.len() > 0 ==> note[0] == '#',
    ensures
        directive(before + key + gap + value + behind + note) == Some(Directive { key, value }),
{
    let core = key + gap + value;
    let line = before + core + behind;
    let raw = before + key + gap + value + behind + note;
    lemma_blanks_are_unmarked(before);
    lemma_blanks_are_unmarked(behind);
    assert(unmarked(gap)) by {
        if blank(gap) {
            lemma_blanks_are_unmarked(gap);
        } else {
            let k = choose|k: int|
                0 <= k < gap.len() && gap[k] == '=' && blank(#[trigger] gap.take(k)) && blank(
                    gap.skip(k + 1),
                );
            lemma_blanks_are_unmarked(gap.take(k));
            lemma_blanks_are_unmarked(gap.skip(k + 1));
            assert forall|i: int| 0 <= i < gap.len() implies (#[trigger] gap[i]) != '#'
                && !quote_mark(gap[i]) by {
                if i < k {
                    assert(gap.take(k)[i] == gap[i]);
                } else if i > k {
                    assert(gap.skip(k + 1)[i - k - 1] == gap[i]);
                }
            }
        }
    }
    assert(unmarked(line));
    assert(raw =~= line + note);
    lemma_comment_starts_behind(line, note);
    assert(uncommented(raw) =~= line);
    assert(core[0] == key[0] && !white(key[0]));
    assert(core.last() == value.last());
    law_trimming_keeps_the_ink(before, core, behind);
    assert(unquoted(value) == value) by {
        assert(!quote_mark(value[0]));
    }
    if blank(gap) && gap.len() > 0 {
        lemma_key_and_blank(key, gap, value);
    } else {
        let k = choose|k: int|
            0 <= k < gap.len() && gap[k] == '=' && blank(#[trigger] gap.take(k)) && blank(
                gap.skip(k + 1),
            );
        lemma_key_and_equals(key, gap, value, k);
    }
}

proof fn lemma_first_hop(before: Seq<char>, hop: Seq<char>, behind: Seq<char>, more: Seq<char>)
    requires
        blank(before),
        blank(behind),
        hop.len() > 0,
        !white(hop[0]),
        !white(hop.last()),
        !hop.contains(','),
        more.len() > 0 ==> more[0] == ',',
    ensures
        ({
            let value = before + hop + behind + more;
            trimmed(value.take(first_where(value, is_the(',')))) == hop
        }),
{
    let value = before + hop + behind + more;
    let core = before + hop + behind;
    let n = core.len() as int;
    assert forall|j: int| 0 <= j < n implies !is_the(',')(#[trigger] value[j]) by {
        if j < before.len() {
            assert(white(before[j]));
        } else if j < before.len() + hop.len() {
            assert(value[j] == hop[j - before.len()]);
            assert(hop.contains(value[j]));
        } else {
            assert(white(behind[j - before.len() - hop.len()]));
        }
    }
    if n < value.len() {
        assert(value[n] == more[0]);
    }
    lemma_first_where(value, is_the(','), n);
    assert(value.take(n) =~= core);
    law_trimming_keeps_the_ink(before, hop, behind);
}

proof fn lemma_last_colon(s: Seq<char>, k: int)
    requires
        0 <= k < s.len(),
        s[k] == ':',
        forall|j: int| k < j < s.len() ==> s[j] != ':',
    ensures
        last_colon(s) == k,
    decreases s.len(),
{
    if k < s.len() - 1 {
        assert(s[s.len() - 1] != ':');
        lemma_last_colon(s.drop_last(), k);
    }
}

proof fn lemma_no_colon(s: Seq<char>)
    requires
        !s.contains(':'),
    ensures
        last_colon(s) == -1,
    decreases s.len(),
{
    if s.len() > 0 {
        assert(s.contains(s[s.len() - 1]));
        assert forall|j: int| 0 <= j < s.drop_last().len() implies s.drop_last()[j] != ':' by {
            assert(s.contains(s[j]));
        }
        lemma_no_colon(s.drop_last());
    }
}

/// A jump host as it is read: a host, a login there and a port, and nothing else.
pub open spec fn plain_jump(user: Seq<char>, host: Seq<char>, port: u16) -> RemoteModel {
    RemoteModel {
        name: Seq::empty(),
        host,
        user,
        port,
        identity: Seq::empty(),
        group: Seq::empty(),
        color: Seq::empty(),
        jump: None,
        forwards: Seq::empty(),
    }
}

/// How the first hop of a `ProxyJump` is read. A login before an at sign and a port
/// behind a colon are taken over, in any combination; without a port it is 22. White
/// space around the hop, and every hop behind it, do not count.
pub proof fn law_jumps_are_read_part_by_part(
    before: Seq<char>,
    user: Seq<char>,
    host: Seq<char>,
    port: u16,
    behind: Seq<char>,
    more: Seq<char>,
)
    requires
        blank(before),
        blank(behind),
        more.len() > 0 ==> more[0] == ',',
        !user.contains('@') && !user.contains(',') && !any_white(user),
        host.len() > 0,
        !host.contains('@') && !host.contains(',') && !host.contains(':') && !any_white(host),
    ensures
        jump_of(before + host + behind + more) == Some(plain_jump(Seq::empty(), host, 22)),
        jump_of(before + (user + seq!['@'] + host) + behind + more) == Some(
            plain_jump(user, host, 22),
        ),
        jump_of(before + (host + seq![':'] + decimal(port as nat)) + behind + more) == Some(
            plain_jump(Seq::empty(), host, port),
        ),
        jump_of(
            before + (user + seq!['@'] + host + seq![':'] + decimal(port as nat)) + behind + more,
        ) == Some(plain_jump(user, host, port)),
{
    let digits = decimal(port as nat);
    law_decimal_digits(port as nat, 0);
    lemma_decimal_value(port as nat);
    law_numbers_read_back(port as nat, 65535);
    assert(!digits.contains('@') && !digits.contains(',') && !digits.contains(':'));
    assert(!any_white(digits));
    let with_port = host + seq![':'] + digits;
    let at = seq!['@'];
    assert forall|j: int| 0 <= j < with_port.len() implies with_port[j] != '@' && with_port[j]
        != ',' && !white(with_port[j]) by {
        if j < host.len() {
            assert(host.contains(host[j]));
        } else if j > host.len() {
            assert(digits.contains(digits[j - host.len() - 1]));
        }
    }
    lemma_no_colon(host);
    assert forall|j: int| host.len() < j < with_port.len() implies with_port[j] != ':' by {
        assert(digits.contains(digits[j - host.len() - 1]));
    }
    lemma_last_colon(with_port, host.len() as int);
    assert(with_port.skip(host.len() as int + 1) =~= digits);
    assert(with_port.take(host.len() as int) =~= host);
    assert(!blank(host)) by {
        assert(!white(host[0]));
    }
    lemma_hop_without_login(before, host, behind, more);
    lemma_hop_without_login(before, with_port, behind, more);
    lemma_hop_with_login(before, user, host, behind, more);
    lemma_hop_with_login(before, user, with_port, behind, more);
    assert(user + at + with_port =~= user + at + host + seq![':'] + digits);
}

/// What is read of a hop once its login is off.
spec fn rest_read(user: Seq<char>, rest: Seq<char>) -> Option<RemoteModel> {
    let colon = last_colon(rest);
    let port = if colon >= 0 {
        port_of(rest.skip(colon + 1))
    } else {
        None
    };
    let host = if port is Some {
        rest.take(colon)
    } else {
        rest
    };
    if blank(host) {
        None
    } else {
        Some(
            plain_jump(
                user,
                host,
                match port {
                    Some(p) => p,
                    None => 22,
                },
            ),
        )
    }
}

proof fn lemma_hop_without_login(
    before: Seq<char>,
    rest: Seq<char>,
    behind: Seq<char>,
    more: Seq<char>,
)
    requires
        blank(before),
        blank(behind),
        more.len() > 0 ==> more[0] == ',',
        rest.len() > 0,
        forall|j: int| 0 <= j < rest.len() ==> rest[j] != '@' && rest[j] != ',' && !white(rest[j]),
    ensures
        jump_of(before + rest + behind + more) == rest_read(Seq::empty(), rest),
{
    lemma_first_hop(before, rest, behind, more);
    assert forall|j: int| 0 <= j < rest.len() implies !is_the('@')(#[trigger] rest[j]) by {}
    lemma_first_where(rest, is_the('@'), rest.len() as int);
}

proof fn lemma_hop_with_login(
    before: Seq<char>,
    user: Seq<char>,
    rest: Seq<char>,
    behind: Seq<char>,
    more: Seq<char>,
)
    requires
        blank(before),
        blank(behind),
        more.len() > 0 ==> more[0] == ',',
        !user.contains('@') && !user.contains(',') && !any_white(user),
        rest.len() > 0,
        forall|j: int| 0 <= j < rest.len() ==> rest[j] != '@' && rest[j] != ',' && !white(rest[j]),
    ensures
        jump_of(before + (user + seq!['@'] + rest) + behind + more) == rest_read(user, rest),
{
    let hop = user + seq!['@'] + rest;
    let n = user.len() as int;
    assert forall|j: int| 0 <= j < hop.len() implies hop[j] != ',' && !white(hop[j]) by {
        if j < n {
            assert(user.contains(user[j]));
        } else if j > n {
            assert(hop[j] == rest[j - n - 1]);
        }
    }
    lemma_first_hop(before, hop, behind, more);
    assert forall|j: int| 0 <= j < n implies !is_the('@')(#[trigger] hop[j]) by {
        assert(user.contains(user[j]));
    }
    assert(hop[n] == '@');
    lemma_first_where(hop, is_the('@'), n);
    assert(hop.take(n) =~= user);
    assert(hop.skip(n + 1) =~= rest);
}

/// What stands behind the last colon of a hop and is no port belongs to the host,
/// and a hop that names no host is none.
pub proof fn law_what_is_no_port_is_the_host(user: Seq<char>, host: Seq<char>, tail: Seq<char>)
    requires
        !user.contains('@') && !user.contains(',') && !any_white(user),
        host.len() > 0,
        !host.contains('@') && !host.contains(',') && !any_white(host),
        !tail.contains('@') && !tail.contains(',') && !tail.contains(':') && !any_white(tail),
        number(tail, 10, 65535) is None,
    ensures
        jump_of(user + seq!['@'] + (host + seq![':'] + tail)) == Some(
            plain_jump(user, host + seq![':'] + tail, 22),
        ),
        jump_of(user + seq!['@']) is None,
        jump_of(Seq::empty()) is None,
{
    let none = Seq::<char>::empty();
    let rest = host + seq![':'] + tail;
    assert forall|j: int| 0 <= j < rest.len() implies rest[j] != '@' && rest[j] != ','
        && !white(rest[j]) by {
        if j < host.len() {
            assert(host.contains(host[j]));
        } else if j > host.len() {
            assert(tail.contains(tail[j - host.len() - 1]));
        }
    }
    assert forall|j: int| host.len() < j < rest.len() implies rest[j] != ':' by {
        assert(tail.contains(tail[j - host.len() - 1]));
    }
    lemma_last_colon(rest, host.len() as int);
    assert(rest.skip(host.len() as int + 1) =~= tail);
    lemma_hop_with_login(none, user, rest, none, none);
    assert(none + (user + seq!['@'] + rest) + none + none =~= user + seq!['@'] + rest);
    assert(!blank(rest)) by {
        assert(!white(rest[0]));
    }
    let alone = user + seq!['@'];
    assert forall|j: int| 0 <= j < alone.len() implies alone[j] != ',' && !white(alone[j]) by {
        if j < user.len() {
            assert(user.contains(user[j]));
        }
    }
    lemma_first_hop(none, alone, none, none);
    assert(none + alone + none + none =~= alone);
    let n = user.len() as int;
    assert forall|j: int| 0 <= j < n implies !is_the('@')(#[trigger] alone[j]) by {
        assert(user.contains(user[j]));
    }
    lemma_first_where(alone, is_the('@'), n);
    assert(alone.skip(n + 1) =~= none);
    lemma_no_colon(none);
    assert(none.take(0) =~= none);
    assert(trimmed(none) =~= none) by {
        lemma_first_where(none, is_ink(), 0);
    }
    lemma_first_where(none, is_the('@'), 0);
    lemma_first_where(none, is_the(','), 0);
}

/// The first option of a section comes before all that follow: its value is the one of
/// its key, and where its key is another, or it names no port or no jump host, the rest
/// decides.
pub proof fn law_the_first_option_comes_first(d: Directive, rest: Seq<Directive>, key: Seq<char>)
    ensures
        first_value(Seq::empty(), key) is None,
        first_value(seq![d] + rest, key) == (if same_letters(d.key, key) {
            Some(d.value)
        } else {
            first_value(rest, key)
        }),
        first_port(Seq::empty()) is None,
        first_port(seq![d] + rest) == (if same_letters(d.key, "port"@) && number(
            d.value,
            10,
            65535,
        ) is Some {
            Some(number(d.value, 10, 65535)->0 as u16)
        } else {
            first_port(rest)
        }),
        first_jump(Seq::empty()) is None,
        first_jump(seq![d] + rest) == (if same_letters(d.key, "proxyjump"@) && jump_of(
            d.value,
        ) is Some {
            jump_of(d.value)
        } else {
            first_jump(rest)
        }),
    decreases rest.len(),
{
    let all = seq![d] + rest;
    if rest.len() == 0 {
        assert(all.drop_last() =~= Seq::<Directive>::empty());
        assert(all.last() == d);
        assert(rest =~= Seq::<Directive>::empty());
    } else {
        assert(all.drop_last() =~= seq![d] + rest.drop_last());
        assert(all.last() == rest.last());
        law_the_first_option_comes_first(d, rest.drop_last(), key);
    }
}

/// Whether an alias is a name and no pattern.
pub open spec fn plain_alias() -> spec_fn(Seq<char>) -> bool {
    |a: Seq<char>| !a.contains('*') && !a.contains('?')
}

/// The connection that a section gives an alias: the host that it names, and what its
/// options say of the user, the port, the key and the jump host.
pub open spec fn aliased_host(ds: Seq<Directive>) -> spec_fn(Seq<char>) -> RemoteModel {
    |a: Seq<char>|
        RemoteModel {
            name: a,
            host: first_value(ds, "hostname"@)->0,
            user: match first_value(ds, "user"@) {
                Some(v) => v,
                None => Seq::empty(),
            },
            port: match first_port(ds) {
                Some(p) => p,
                None => 22,
            },
            identity: match first_value(ds, "identityfile"@) {
                Some(v) => v,
                None => Seq::empty(),
            },
            group: Seq::empty(),
            color: Seq::empty(),
            jump: match first_jump(ds) {
                Some(j) => Some(Box::new(j)),
                None => None,
            },
            forwards: Seq::empty(),
        }
}

/// What a configuration gives, section by section. A `Host` section that names a host
/// gives one connection for each of its aliases that is no pattern, in order, with what
/// the options up to the next section say; one that names none gives nothing, and
/// neither does a `Match` section.
pub proof fn law_sections_give_their_hosts(
    head: Directive,
    ds: Seq<Directive>,
    rest: Seq<Directive>,
)
    requires
        forall|i: int|
            0 <= i < ds.len() ==> !same_letters(#[trigger] ds[i].key, "Host"@) && !same_letters(
                ds[i].key,
                "Match"@,
            ),
        rest.len() > 0 ==> same_letters(rest[0].key, "Host"@) || same_letters(
            rest[0].key,
            "Match"@,
        ),
    ensures
        imported(Seq::empty()) == Seq::<RemoteModel>::empty(),
        same_letters(head.key, "Match"@) && !same_letters(head.key, "Host"@) ==> imported(
            seq![head] + ds + rest,
        ) == imported(rest),
        same_letters(head.key, "Host"@) ==> imported(seq![head] + ds + rest) == (if first_value(
            ds,
            "hostname"@,
        ) is Some && !blank(first_value(ds, "hostname"@)->0) {
            words(head.value).filter(plain_alias()).map_values(aliased_host(ds))
        } else {
            Seq::empty()
        }) + imported(rest),
{
    let all = seq![head] + ds + rest;
    let tail = ds + rest;
    lemma_section_ends(ds, rest);
    assert(all.skip(1) =~= tail);
    assert(tail.take(ds.len() as int) =~= ds);
    assert(tail.skip(ds.len() as int) =~= rest);
    assert(all[0] == head);
    let block = section(words(head.value), ds);
    if block.hostname is Some {
        lemma_aliased_filters(block, ds, words(head.value));
    }
}

proof fn lemma_section_ends(ds: Seq<Directive>, rest: Seq<Directive>)
    requires
        forall|i: int|
            0 <= i < ds.len() ==> !same_letters(#[trigger] ds[i].key, "Host"@) && !same_letters(
                ds[i].key,
                "Match"@,
            ),
        rest.len() > 0 ==> same_letters(rest[0].key, "Host"@) || same_letters(
            rest[0].key,
            "Match"@,
        ),
    ensures
        first_section(ds + rest) == ds.len(),
    decreases ds.len(),
{
    let all = ds + rest;
    if ds.len() == 0 {
        assert(all =~= rest);
    } else {
        assert(all[0] == ds[0]);
        assert(!same_letters(ds[0].key, "Host"@));
        assert(all.skip(1) =~= ds.skip(1) + rest);
        assert forall|i: int| 0 <= i < ds.skip(1).len() implies !same_letters(
            #[trigger] ds.skip(1)[i].key,
            "Host"@,
        ) && !same_letters(ds.skip(1)[i].key, "Match"@) by {
            assert(ds.skip(1)[i] == ds[i + 1]);
        }
        lemma_section_ends(ds.skip(1), rest);
    }
}

proof fn lemma_aliased_filters(block: BlockModel, ds: Seq<Directive>, aliases: Seq<Seq<char>>)
    requires
        block == section(block.aliases, ds),
        block.hostname is Some,
    ensures
        aliased(block, aliases) == aliases.filter(plain_alias()).map_values(aliased_host(ds)),
    decreases aliases.len(),
{
    reveal(Seq::filter);
    if aliases.len() > 0 {
        lemma_aliased_filters(block, ds, aliases.drop_last());
        assert(block.profile(aliases.last()) == aliased_host(ds)(aliases.last()));
        assert(aliased(block, aliases) =~= aliases.filter(plain_alias()).map_values(
            aliased_host(ds),
        ));
    } else {
        assert(aliased(block, aliases) =~= aliases.filter(plain_alias()).map_values(
            aliased_host(ds),
        ));
    }
}

/// The options of a configuration are those of its lines, one after the other; a line
/// without one adds nothing. The connections are those of the options, in their order
/// and with their jump hosts looked up.
pub proof fn law_lines_give_their_options(text: Seq<char>, line: Seq<char>, rest: Seq<Seq<char>>)
    ensures
        directives(Seq::empty()) == Seq::<Directive>::empty(),
        directives(seq![line] + rest) == (match directive(line) {
            Some(d) => seq![d] + directives(rest),
            None => directives(rest),
        }),
        hosts_in(text).len() == imported(directives(lines(text))).len(),
        forall|i: int|
            0 <= i < hosts_in(text).len() ==> #[trigger] hosts_in(text)[i] == resolved(
                imported(directives(lines(text)))[i],
                imported(directives(lines(text))),
            ),
{
    assert((seq![line] + rest).skip(1) =~= rest);
}

/// How a jump host is looked up: where its host is the name of a connection, the first
/// with that name gives the host, and the user, the port and the key where the jump
/// host itself leaves them open. Otherwise it stays as it is, and so does everything
/// else of the connection.
pub proof fn law_jump_hosts_are_filled_in(
    p: RemoteModel,
    before: Seq<RemoteModel>,
    target: RemoteModel,
    behind: Seq<RemoteModel>,
)
    requires
        forall|i: int| 0 <= i < before.len() ==> (#[trigger] before[i]).name != target.name,
    ensures
        p.jump is None ==> resolved(p, before + seq![target] + behind) == p,
        p.jump is Some && p.jump->0.host == target.name ==> resolved(
            p,
            before + seq![target] + behind,
        ) == (RemoteModel {
            jump: Some(
                Box::new(
                    RemoteModel {
                        host: target.host,
                        user: if p.jump->0.user.len() > 0 {
                            p.jump->0.user
                        } else {
                            target.user
                        },
                        port: if p.jump->0.port != 22 {
                            p.jump->0.port
                        } else {
                            target.port
                        },
                        identity: if p.jump->0.identity.len() > 0 {
                            p.jump->0.identity
                        } else {
                            target.identity
                        },
                        ..*p.jump->0
                    },
                ),
            ),
            ..p
        }),
        p.jump is Some && (forall|i: int|
            0 <= i < before.len() ==> (#[trigger] before[i]).name != p.jump->0.host) ==> resolved(
            p,
            before,
        ) == p,
{
    lemma_named_at(before, target, behind);
    if p.jump is Some {
        if forall|i: int|
            0 <= i < before.len() ==> (#[trigger] before[i]).name != p.jump->0.host {
            lemma_named_nowhere(before, p.jump->0.host);
        }
    }
}

proof fn lemma_named_at(
    before: Seq<RemoteModel>,
    target: RemoteModel,
    behind: Seq<RemoteModel>,
)
    requires
        forall|i: int| 0 <= i < before.len() ==> (#[trigger] before[i]).name != target.name,
    ensures
        named(before + seq![target] + behind, target.name) == Some(target),
    decreases before.len(),
{
    let all = before + seq![target] + behind;
    if before.len() == 0 {
        assert(all[0] == target);
    } else {
        assert(all[0] == before[0]);
        assert(before[0].name != target.name);
        assert(all.skip(1) =~= before.skip(1) + seq![target] + behind);
        assert forall|i: int| 0 <= i < before.skip(1).len() implies (
        #[trigger] before.skip(1)[i]).name != target.name by {
            assert(before.skip(1)[i] == before[i + 1]);
        }
        lemma_named_at(before.skip(1), target, behind);
    }
}

proof fn lemma_named_nowhere(list: Seq<RemoteModel>, name: Seq<char>)
    requires
        forall|i: int| 0 <= i < list.len() ==> (#[trigger] list[i]).name != name,
    ensures
        named(list, name) is None,
    decreases list.len(),
{
    if list.len() > 0 {
        assert(list[0].name != name);
        assert forall|i: int| 0 <= i < list.skip(1).len() implies (#[trigger] list.skip(1)[i]).name
            != name by {
            assert(list.skip(1)[i] == list[i + 1]);
        }
        lemma_named_nowhere(list.skip(1), name);
    }
}

proof fn lemma_comment_behind(s: Seq<char>, t: Seq<char>)
    requires
        unmarked(s),
    ensures
        comment_start(s + t, None) == s.len() + comment_start(t, None),
    decreases s.len(),
{
    let all = s + t;
    if s.len() == 0 {
        assert(all =~= t);
    } else {
        assert(all[0] == s[0]);
        assert(s[0] != '#' && !quote_mark(s[0]));
        assert(all.skip(1) =~= s.skip(1) + t);
        assert forall|i: int| 0 <= i < s.skip(1).len() implies (#[trigger] s.skip(1)[i]) != '#'
            && !quote_mark(s.skip(1)[i]) by {
            assert(s.skip(1)[i] == s[i + 1]);
        }
        lemma_comment_behind(s.skip(1), t);
    }
}

proof fn lemma_comment_behind_quotes(inner: Seq<char>, q: char, t: Seq<char>)
    requires
        quote_mark(q),
        !inner.contains(q),
    ensures
        comment_start(inner + seq![q] + t, Some(q)) == inner.len() + 1 + comment_start(t, None),
    decreases inner.len(),
{
    let all = inner + seq![q] + t;
    if inner.len() == 0 {
        assert(all[0] == q);
        assert(all.skip(1) =~= t);
    } else {
        assert(all[0] == inner[0]);
        assert(inner.contains(inner[0]));
        assert(all.skip(1) =~= inner.skip(1) + seq![q] + t);
        assert forall|i: int| 0 <= i < inner.skip(1).len() implies inner.skip(1)[i] != q by {
            assert(inner.contains(inner[i + 1]));
        }
        lemma_comment_behind_quotes(inner.skip(1), q, t);
    }
}

/// A value in quotes is read as what stands between them, whatever that is: white space
/// around it stays, and a number sign in it starts no comment. Either mark quotes.
#[verifier::rlimit(50)]
#[verifier::spinoff_prover]
pub proof fn law_quoted_values_are_kept_whole(
    before: Seq<char>,
    key: Seq<char>,
    gap: Seq<char>,
    double: bool,
    inner: Seq<char>,
    behind: Seq<char>,
    note: Seq<char>,
)
    requires
        blank(before),
        key.len() > 0,
        !any_white(key),
        !key.contains('='),
        unmarked(key),
        blank(gap) && gap.len() > 0,
        !inner.contains(
            if double {
                '"'
            } else {
                '\''
            },
        ),
        blank(behind),
        note.len() > 0 ==> note[0] == '#',
    ensures
        ({
            let q = if double {
                seq!['"']
            } else {
                seq!['\'']
            };
            directive(before + key + gap + q + inner + q + behind + note) == Some(
                Directive { key, value: inner },
            )
        }),
{
    let c = if double {
        '"'
    } else {
        '\''
    };
    let q = if double {
        seq!['"']
    } else {
        seq!['\'']
    };
    assert(q =~= seq![c]);
    let value = q + inner + q;
    let raw = before + key + gap + q + inner + q + behind + note;
    let head = before + key + gap;
    let tail = behind + note;
    lemma_blanks_are_unmarked(before);
    lemma_blanks_are_unmarked(gap);
    lemma_blanks_are_unmarked(behind);
    assert(unmarked(head));
    let quoted = seq![c] + (inner + seq![c] + tail);
    assert(raw =~= head + quoted);
    lemma_comment_behind(head, quoted);
    assert(quoted[0] == c);
    assert(quoted.skip(1) =~= inner + seq![c] + tail);
    lemma_comment_behind_quotes(inner, c, tail);
    lemma_comment_starts_behind(behind, note);
    let core = key + gap + value;
    let line = before + core + behind;
    assert(comment_start(raw, None) == line.len());
    assert(uncommented(raw) =~= line);
    assert(core[0] == key[0] && !white(key[0]));
    assert(core.last() == c && value[0] == c && value.last() == c);
    law_trimming_keeps_the_ink(before, core, behind);
    assert(trimmed(uncommented(raw)) == core);
    lemma_key_and_blank(key, gap, value);
    assert(value.subrange(1, value.len() - 1) =~= inner);
    assert(unquoted(value) == inner);
}

/// A path is below the home directory exactly where it starts with a tilde and a slash, and
/// what comes behind them is the path from there. A tilde alone is the home directory
/// itself, and a tilde before anything else means nothing.
pub proof fn law_which_paths_start_at_home(written: Seq<char>)
    ensures
        home_path(seq!['~', '/'] + written) == Some(written),
        !(written.len() >= 2 && written[0] == '~' && written[1] == '/') ==> home_path(
            written,
        ) is None,
        starts_at_home(written) <==> (written == seq!['~'] || (written.len() >= 2 && written[0]
            == '~' && written[1] == '/')),
{
    reveal_strlit("~");
    assert("~"@ =~= seq!['~']);
    let s = seq!['~', '/'] + written;
    assert(s[0] == '~' && s[1] == '/');
    assert(s.skip(2) =~= written);
}

} // verus!
