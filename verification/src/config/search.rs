//! The web search engines offered for a selection lookup.

use crate::text::same_str;
use vstd::prelude::*;
use vstd::utf8::encode_utf8;

verus! {

/// The engine used when settings carry none.
pub const DEFAULT_SEARCH_ENGINE: &'static str = "google";

/// The engines that are offered: the key that settings carry, the display name,
/// and the address of the results, with `{}` in the place of the query.
pub const SEARCH_ENGINES: [(&'static str, &'static str, &'static str); 4] = [
    ("google", "Google", "https://www.google.com/search?q={}"),
    ("bing", "Bing", "https://www.bing.com/search?q={}"),
    ("duckduckgo", "DuckDuckGo", "https://duckduckgo.com/?q={}"),
    ("baidu", "百度", "https://www.baidu.com/s?wd={}"),
];

/// The display name of an engine; an unknown key stands for itself.
pub open spec fn engine_label(key: Seq<char>) -> Seq<char> {
    if key == "google"@ {
        "Google"@
    } else if key == "bing"@ {
        "Bing"@
    } else if key == "duckduckgo"@ {
        "DuckDuckGo"@
    } else if key == "baidu"@ {
        "百度"@
    } else {
        key
    }
}

/// What stands before the query in the address of an engine's results. An
/// unknown key goes to the default engine.
pub open spec fn engine_prefix(key: Seq<char>) -> Seq<char> {
    if key == "bing"@ {
        "https://www.bing.com/search?q="@
    } else if key == "duckduckgo"@ {
        "https://duckduckgo.com/?q="@
    } else if key == "baidu"@ {
        "https://www.baidu.com/s?wd="@
    } else {
        "https://www.google.com/search?q="@
    }
}

/// The bytes that need no escape in an address: the unreserved characters of
/// RFC 3986.
pub open spec fn unreserved(b: u8) -> bool {
    ||| 65 <= b <= 90
    ||| 97 <= b <= 122
    ||| 48 <= b <= 57
    ||| b == 45
    ||| b == 95
    ||| b == 46
    ||| b == 126
}

/// An upper-case hexadecimal digit.
pub open spec fn hex_digit(d: int) -> char {
    (if d < 10 {
        48 + d
    } else {
        55 + d
    }) as char
}

/// How one byte stands in an address.
pub open spec fn percent_byte(b: u8) -> Seq<char> {
    if unreserved(b) {
        seq![b as char]
    } else {
        seq!['%', hex_digit(b as int / 16), hex_digit(b as int % 16)]
    }
}

/// How bytes stand in an address.
pub open spec fn percent_encoded(bytes: Seq<u8>) -> Seq<char>
    decreases bytes.len(),
{
    if bytes.len() == 0 {
        Seq::empty()
    } else {
        percent_byte(bytes[0]) + percent_encoded(bytes.skip(1))
    }
}

/// The display name for a stored engine key.
pub fn search_engine_label(engine: &str) -> (out: &str)
    ensures
        out@ == engine_label(engine@),
{
    if same_str(engine, "google") {
        "Google"
    } else if same_str(engine, "bing") {
        "Bing"
    } else if same_str(engine, "duckduckgo") {
        "DuckDuckGo"
    } else if same_str(engine, "baidu") {
        "百度"
    } else {
        engine
    }
}

/// The address of the results for `query` on `engine`. An unknown key falls
/// back to the default engine, so a hand-edited setting cannot produce a broken
/// lookup.
pub fn search_url(engine: &str, query: &str) -> (out: String)
    ensures
        out@ == engine_prefix(engine@) + percent_encoded(encode_utf8(query@)),
{
    let mut out = String::new();
    if same_str(engine, "bing") {
        out.append("https://www.bing.com/search?q=");
    } else if same_str(engine, "duckduckgo") {
        out.append("https://duckduckgo.com/?q=");
    } else if same_str(engine, "baidu") {
        out.append("https://www.baidu.com/s?wd=");
    } else {
        out.append("https://www.google.com/search?q=");
    }
    assert(out@ =~= engine_prefix(engine@));
    let rest: String = percent_encode(query);
    out.append(rest.as_str());
    out
}

/// The upper-case hexadecimal digit for a value below sixteen.
pub fn hex_char(d: u8) -> (c: char)
    requires
        d < 16,
    ensures
        c == hex_digit(d as int),
{
    if d < 10 {
        (48 + d) as char
    } else {
        (55 + d) as char
    }
}

/// Escapes a query for an address: the unreserved characters stay, and every
/// byte of anything else is escaped.
pub fn percent_encode(query: &str) -> (out: String)
    ensures
        out@ == percent_encoded(encode_utf8(query@)),
{
    let bytes = query.as_bytes();
    let n: usize = bytes.len();
    let mut out = String::new();
    let mut i: usize = 0;
    assert(bytes@.skip(0) =~= bytes@);
    assert(out@ + percent_encoded(bytes@) =~= percent_encoded(bytes@));
    while i < n
        invariant
            i <= n,
            n == bytes@.len(),
            out@ + percent_encoded(bytes@.skip(i as int)) == percent_encoded(bytes@),
        decreases n - i,
    {
        let b: u8 = bytes[i];
        let ghost before = out@;
        if (65 <= b && b <= 90) || (97 <= b && b <= 122) || (48 <= b && b <= 57) || b == 45 || b
            == 95 || b == 46 || b == 126 {
            out.push(b as char);
        } else {
            out.push('%');
            out.push(hex_char(b / 16));
            out.push(hex_char(b % 16));
        }
        assert(out@ =~= before + percent_byte(b));
        assert(bytes@.skip(i as int).skip(1) =~= bytes@.skip(i + 1));
        assert(before + (percent_byte(b) + percent_encoded(bytes@.skip(i + 1))) =~= out@
            + percent_encoded(bytes@.skip(i + 1)));
        i += 1;
    }
    assert(bytes@.skip(n as int) =~= Seq::<u8>::empty());
    assert(out@ + Seq::<char>::empty() =~= out@);
    out
}

/// The value of an upper-case hexadecimal digit.
pub open spec fn hex_value(c: char) -> Option<int> {
    if '0' <= c <= '9' {
        Some(c as int - 48)
    } else if 'A' <= c <= 'F' {
        Some(c as int - 55)
    } else {
        None
    }
}

/// The bytes that escaped text stands for; none where the text is no such
/// text.
pub open spec fn percent_decoded(s: Seq<char>) -> Option<Seq<u8>>
    decreases s.len(),
{
    if s.len() == 0 {
        Some(Seq::empty())
    } else if s[0] == '%' {
        if s.len() >= 3 {
            match (hex_value(s[1]), hex_value(s[2]), percent_decoded(s.skip(3))) {
                (Some(high), Some(low), Some(rest)) => Some(seq![(high * 16 + low) as u8] + rest),
                _ => None,
            }
        } else {
            None
        }
    } else if s[0] <= '\u{7f}' && unreserved(s[0] as u8) {
        match percent_decoded(s.skip(1)) {
            Some(rest) => Some(seq![s[0] as u8] + rest),
            None => None,
        }
    } else {
        None
    }
}

/// Nothing of a query is lost in an address: decoding the escaped text gives
/// back its bytes.
pub proof fn law_escaped_text_decodes(bytes: Seq<u8>)
    ensures
        percent_decoded(percent_encoded(bytes)) == Some(bytes),
    decreases bytes.len(),
{
    if bytes.len() > 0 {
        let b = bytes[0];
        let rest = bytes.skip(1);
        law_escaped_text_decodes(rest);
        let s = percent_encoded(bytes);
        assert(s.skip(percent_byte(b).len() as int) =~= percent_encoded(rest));
        if unreserved(b) {
            assert(s[0] == b as char);
            assert(seq![b] + rest =~= bytes);
        } else {
            assert(s[0] == '%');
            assert(s[1] == hex_digit(b as int / 16));
            assert(s[2] == hex_digit(b as int % 16));
            assert(seq![b] + rest =~= bytes);
        }
    } else {
        assert(bytes =~= Seq::<u8>::empty());
    }
}

/// A query comes back whole: the characters that the decoded bytes encode are
/// those of the query.
pub proof fn law_query_survives_the_address(query: Seq<char>)
    ensures
        percent_decoded(percent_encoded(encode_utf8(query))) == Some(encode_utf8(query)),
        vstd::utf8::decode_utf8(percent_decoded(percent_encoded(encode_utf8(query)))->0) == query,
{
    law_escaped_text_decodes(encode_utf8(query));
    vstd::utf8::encode_utf8_decode_utf8(query);
}

/// The escaped text holds only characters that no address takes for something
/// else: unreserved ones and the percent sign.
pub proof fn law_escaped_text_is_safe(bytes: Seq<u8>)
    ensures
        forall|i: int|
            0 <= i < percent_encoded(bytes).len() ==> (#[trigger] percent_encoded(bytes)[i]) == '%'
                || (percent_encoded(bytes)[i] <= '\u{7f}' && unreserved(
                percent_encoded(bytes)[i] as u8,
            )),
    decreases bytes.len(),
{
    if bytes.len() > 0 {
        let head = percent_byte(bytes[0]);
        let rest = percent_encoded(bytes.skip(1));
        law_escaped_text_is_safe(bytes.skip(1));
        assert forall|i: int| 0 <= i < percent_encoded(bytes).len() implies (
        #[trigger] percent_encoded(bytes)[i]) == '%' || (percent_encoded(bytes)[i] <= '\u{7f}'
            && unreserved(percent_encoded(bytes)[i] as u8)) by {
            if i < head.len() {
                assert(percent_encoded(bytes)[i] == head[i]);
            } else {
                assert(percent_encoded(bytes)[i] == rest[i - head.len()]);
            }
        }
    }
}

/// Every engine that is offered is known under its key, shown under its name, and
/// asked at its address: the query stands where its template has `{}`.
pub proof fn law_offered_engines_are_known(i: int)
    requires
        0 <= i < SEARCH_ENGINES@.len(),
    ensures
        engine_label(SEARCH_ENGINES@[i].0@) == SEARCH_ENGINES@[i].1@,
        SEARCH_ENGINES@[i].2@ == engine_prefix(SEARCH_ENGINES@[i].0@) + "{}"@,
{
    reveal_strlit("google");
    reveal_strlit("bing");
    reveal_strlit("duckduckgo");
    reveal_strlit("baidu");
    assert(SEARCH_ENGINES@[0] == ("google", "Google", "https://www.google.com/search?q={}"));
    assert(SEARCH_ENGINES@[1] == ("bing", "Bing", "https://www.bing.com/search?q={}"));
    assert(SEARCH_ENGINES@[2] == ("duckduckgo", "DuckDuckGo", "https://duckduckgo.com/?q={}"));
    assert(SEARCH_ENGINES@[3] == ("baidu", "百度", "https://www.baidu.com/s?wd={}"));
    assert("google"@.len() == 6 && "bing"@.len() == 4);
    assert("duckduckgo"@.len() == 10 && "baidu"@.len() == 5);
    assert(engine_label("google"@) == "Google"@);
    assert(engine_label("bing"@) == "Bing"@);
    assert(engine_label("duckduckgo"@) == "DuckDuckGo"@);
    assert(engine_label("baidu"@) == "百度"@);
    lemma_templates();
    assert(engine_prefix("google"@) == "https://www.google.com/search?q="@);
    assert(engine_prefix("bing"@) == "https://www.bing.com/search?q="@);
    assert(engine_prefix("duckduckgo"@) == "https://duckduckgo.com/?q="@);
    assert(engine_prefix("baidu"@) == "https://www.baidu.com/s?wd="@);
}

proof fn lemma_templates()
    ensures
        "https://www.google.com/search?q={}"@ == "https://www.google.com/search?q="@ + "{}"@,
        "https://www.bing.com/search?q={}"@ == "https://www.bing.com/search?q="@ + "{}"@,
        "https://duckduckgo.com/?q={}"@ == "https://duckduckgo.com/?q="@ + "{}"@,
        "https://www.baidu.com/s?wd={}"@ == "https://www.baidu.com/s?wd="@ + "{}"@,
{
    reveal_strlit("{}");
    reveal_strlit("https://www.google.com/search?q={}");
    reveal_strlit("https://www.google.com/search?q=");
    reveal_strlit("https://www.bing.com/search?q={}");
    reveal_strlit("https://www.bing.com/search?q=");
    reveal_strlit("https://duckduckgo.com/?q={}");
    reveal_strlit("https://duckduckgo.com/?q=");
    reveal_strlit("https://www.baidu.com/s?wd={}");
    reveal_strlit("https://www.baidu.com/s?wd=");
}

/// An engine that is not known is shown as its key and asked where the default engine
/// is, which is Google.
pub proof fn law_unknown_engines_go_to_the_default(key: Seq<char>)
    requires
        forall|i: int| 0 <= i < SEARCH_ENGINES@.len() ==> SEARCH_ENGINES@[i].0@ != key,
    ensures
        engine_label(key) == key,
        engine_prefix(key) == engine_prefix(DEFAULT_SEARCH_ENGINE@),
        DEFAULT_SEARCH_ENGINE@ == "google"@,
        engine_prefix(key) == "https://www.google.com/search?q="@,
{
    reveal_strlit("google");
    reveal_strlit("bing");
    reveal_strlit("duckduckgo");
    reveal_strlit("baidu");
    assert(SEARCH_ENGINES@[0] == ("google", "Google", "https://www.google.com/search?q={}"));
    assert(SEARCH_ENGINES@[1] == ("bing", "Bing", "https://www.bing.com/search?q={}"));
    assert(SEARCH_ENGINES@[2] == ("duckduckgo", "DuckDuckGo", "https://duckduckgo.com/?q={}"));
    assert(SEARCH_ENGINES@[3] == ("baidu", "百度", "https://www.baidu.com/s?wd={}"));
    assert(SEARCH_ENGINES@[0].0@ != key && SEARCH_ENGINES@[1].0@ != key);
    assert(SEARCH_ENGINES@[2].0@ != key && SEARCH_ENGINES@[3].0@ != key);
    assert("google"@.len() == 6 && "bing"@.len() == 4);
    assert("duckduckgo"@.len() == 10 && "baidu"@.len() == 5);
}

/// How each byte of a query stands in an address: a letter, a digit, a dash, an
/// underscore, a dot or a tilde as itself, and any other as a percent sign and its two
/// hexadecimal digits.
pub proof fn law_bytes_in_an_address(b: u8, rest: Seq<u8>)
    ensures
        ({
            let c = b as char;
            let kept = 'A' <= c <= 'Z' || 'a' <= c <= 'z' || '0' <= c <= '9' || c == '-' || c == '_'
                || c == '.' || c == '~';
            let high = b as int / 16;
            let low = b as int % 16;
            percent_encoded(seq![b] + rest) == (if kept {
                seq![c]
            } else {
                seq![
                    '%',
                    (if high < 10 {
                        48 + high
                    } else {
                        55 + high
                    }) as char,
                    (if low < 10 {
                        48 + low
                    } else {
                        55 + low
                    }) as char,
                ]
            }) + percent_encoded(rest)
        }),
        percent_encoded(Seq::empty()) == Seq::<char>::empty(),
{
    assert((seq![b] + rest).skip(1) =~= rest);
}

/// The engines, as they are called and as they are asked.
pub proof fn law_how_engines_are_asked()
    ensures
        engine_label("google"@) == "Google"@,
        engine_label("bing"@) == "Bing"@,
        engine_label("duckduckgo"@) == "DuckDuckGo"@,
        engine_label("baidu"@) == "百度"@,
        engine_prefix("google"@) == "https://www.google.com/search?q="@,
        engine_prefix("bing"@) == "https://www.bing.com/search?q="@,
        engine_prefix("duckduckgo"@) == "https://duckduckgo.com/?q="@,
        engine_prefix("baidu"@) == "https://www.baidu.com/s?wd="@,
{
    reveal_strlit("google");
    reveal_strlit("bing");
    reveal_strlit("duckduckgo");
    reveal_strlit("baidu");
    assert("google"@[0] == 'g' && "google"@.len() == 6);
    assert("bing"@[0] == 'b' && "bing"@.len() == 4);
    assert("duckduckgo"@[0] == 'd');
    assert("baidu"@[0] == 'b' && "baidu"@.len() == 5);
}

} // verus!
