//! Plain text helpers: characters, slices of characters and the strings made
//! from them.

use vstd::prelude::*;
use vstd::slice::slice_subrange;

verus! {

/// `String::push` appends one character.
pub assume_specification[ String::push ](s: &mut String, c: char)
    ensures
        final(s)@ == old(s)@.push(c),
;

/// The contents of a list of strings.
pub open spec fn contents(list: Seq<String>) -> Seq<Seq<char>> {
    Seq::new(list.len(), |i: int| list[i]@)
}

/// The contents of a text that may be missing.
pub open spec fn optional(s: Option<String>) -> Option<Seq<char>> {
    match s {
        Some(s) => Some(s@),
        None => None,
    }
}

/// The characters with the Unicode `White_Space` property.
pub open spec fn white(c: char) -> bool {
    ||| '\u{9}' <= c <= '\u{d}'
    ||| c == ' '
    ||| c == '\u{85}'
    ||| c == '\u{a0}'
    ||| c == '\u{1680}'
    ||| '\u{2000}' <= c <= '\u{200a}'
    ||| c == '\u{2028}'
    ||| c == '\u{2029}'
    ||| c == '\u{202f}'
    ||| c == '\u{205f}'
    ||| c == '\u{3000}'
}

/// The control characters: the Unicode general category `Cc`.
pub open spec fn control(c: char) -> bool {
    c <= '\u{1f}' || '\u{7f}' <= c <= '\u{9f}'
}

/// The ASCII lower-case form of a character; any other character is itself.
pub open spec fn lower(c: char) -> char {
    if 'A' <= c <= 'Z' {
        (c as u32 + 32) as char
    } else {
        c
    }
}

/// Every character in its ASCII lower-case form.
pub open spec fn lowered(s: Seq<char>) -> Seq<char> {
    s.map_values(|c: char| lower(c))
}

/// Whether the two texts are equal up to ASCII case.
pub open spec fn same_letters(a: Seq<char>, b: Seq<char>) -> bool {
    lowered(a) == lowered(b)
}

/// The index of the first character with property `p`, or the length.
pub open spec fn first_where(s: Seq<char>, p: spec_fn(char) -> bool) -> int
    decreases s.len(),
{
    if s.len() == 0 || p(s[0]) {
        0
    } else {
        1 + first_where(s.skip(1), p)
    }
}

/// The property of being white space.
pub open spec fn is_white() -> spec_fn(char) -> bool {
    |c: char| white(c)
}

/// The property of not being white space.
pub open spec fn is_ink() -> spec_fn(char) -> bool {
    |c: char| !white(c)
}

/// The property of being the character `x`.
pub open spec fn is_the(x: char) -> spec_fn(char) -> bool {
    |c: char| c == x
}

/// The text without the white space at its start.
pub open spec fn trim_front(s: Seq<char>) -> Seq<char> {
    s.skip(first_where(s, is_ink()))
}

/// The text without the white space at its end.
pub open spec fn trim_back(s: Seq<char>) -> Seq<char>
    decreases s.len(),
{
    if s.len() > 0 && white(s.last()) {
        trim_back(s.drop_last())
    } else {
        s
    }
}

/// The text without the white space around it.
pub open spec fn trimmed(s: Seq<char>) -> Seq<char> {
    trim_back(trim_front(s))
}

/// Whether the text holds nothing but white space.
pub open spec fn blank(s: Seq<char>) -> bool {
    forall|i: int| 0 <= i < s.len() ==> white(#[trigger] s[i])
}

/// Whether the text holds white space.
pub open spec fn any_white(s: Seq<char>) -> bool {
    exists|i: int| 0 <= i < s.len() && white(#[trigger] s[i])
}

/// The words of a text: its longest runs without white space.
pub open spec fn words(s: Seq<char>) -> Seq<Seq<char>>
    decreases s.len(),
{
    let t = trim_front(s);
    let n = first_where(t, is_white());
    if t.len() == 0 || n <= 0 || t.len() > s.len() || n > t.len() {
        Seq::empty()
    } else {
        seq![t.take(n)] + words(t.skip(n))
    }
}

/// A line without a carriage return at its end.
pub open spec fn without_return(s: Seq<char>) -> Seq<char> {
    if s.len() > 0 && s.last() == '\r' {
        s.drop_last()
    } else {
        s
    }
}

/// The lines of a text. A line ends at a line feed, with a carriage return
/// before it or not; the last line needs no line feed.
pub open spec fn lines(s: Seq<char>) -> Seq<Seq<char>>
    decreases s.len(),
{
    let n = first_where(s, is_the('\n'));
    if s.len() == 0 {
        Seq::empty()
    } else if n < 0 || n >= s.len() {
        seq![s]
    } else {
        seq![without_return(s.take(n))] + lines(s.skip(n + 1))
    }
}

/// The value of a digit in a radix up to 16, if the character is one.
pub open spec fn digit(c: char, radix: int) -> Option<int> {
    let d = if '0' <= c <= '9' {
        c as int - '0' as int
    } else if 'a' <= c <= 'f' {
        c as int - 'a' as int + 10
    } else if 'A' <= c <= 'F' {
        c as int - 'A' as int + 10
    } else {
        99
    };
    if d < radix {
        Some(d)
    } else {
        None
    }
}

/// The number that a run of digits stands for. The empty run stands for zero.
pub open spec fn digits_value(s: Seq<char>, radix: int) -> Option<int>
    decreases s.len(),
{
    if s.len() == 0 {
        Some(0)
    } else {
        match (digits_value(s.drop_last(), radix), digit(s.last(), radix)) {
            (Some(v), Some(d)) => Some(v * radix + d),
            _ => None,
        }
    }
}

/// The number a text stands for: an optional plus sign and at least one
/// digit, and nothing else. A number over `max` is none.
pub open spec fn number(s: Seq<char>, radix: int, max: int) -> Option<int> {
    let t = if s.len() > 0 && s[0] == '+' {
        s.skip(1)
    } else {
        s
    };
    if t.len() == 0 {
        None
    } else {
        match digits_value(t, radix) {
            Some(v) => if v <= max {
                Some(v)
            } else {
                None
            },
            None => None,
        }
    }
}

/// The decimal digits of a number, without leading zeros.
pub open spec fn decimal(n: nat) -> Seq<char>
    decreases n,
{
    if n < 10 {
        seq![('0' as u32 + n) as char]
    } else {
        decimal(n / 10).push(('0' as u32 + n % 10) as char)
    }
}

/// The characters of `s`, in order.
pub fn chars_of(s: &str) -> (out: Vec<char>)
    ensures
        out@ == s@,
{
    let mut out: Vec<char> = Vec::new();
    for c in it: s.chars()
        invariant
            it.seq() == s@,
            out@ == s@.take(it.index() as int),
    {
        out.push(c);
    }
    out
}

/// The string made of the characters of `s`.
pub fn string_of(s: &[char]) -> (out: String)
    ensures
        out@ == s@,
{
    let mut out = String::new();
    let n: usize = s.len();
    for i in 0..n
        invariant
            n == s@.len(),
            out@ == s@.take(i as int),
    {
        out.push(s[i]);
        assert(s@.take(i + 1) =~= s@.take(i as int).push(s@[i as int]));
    }
    assert(s@.take(n as int) =~= s@);
    out
}

/// Whether `c` is white space.
pub fn is_whitespace(c: char) -> (yes: bool)
    ensures
        yes == white(c),
{
    ('\u{9}' <= c && c <= '\u{d}') || c == ' ' || c == '\u{85}' || c == '\u{a0}' || c == '\u{1680}'
        || ('\u{2000}' <= c && c <= '\u{200a}') || c == '\u{2028}' || c == '\u{2029}' || c
        == '\u{202f}' || c == '\u{205f}' || c == '\u{3000}'
}

/// Whether `c` is a control character.
pub fn is_control(c: char) -> (yes: bool)
    ensures
        yes == control(c),
{
    c <= '\u{1f}' || ('\u{7f}' <= c && c <= '\u{9f}')
}

/// The ASCII lower-case form of `c`.
pub fn to_lower(c: char) -> (out: char)
    ensures
        out == lower(c),
{
    if 'A' <= c && c <= 'Z' {
        ((c as u8) + 32) as char
    } else {
        c
    }
}

/// Whether the two slices hold the same characters.
pub fn same(a: &[char], b: &[char]) -> (yes: bool)
    ensures
        yes == (a@ == b@),
{
    if a.len() != b.len() {
        return false;
    }
    let n: usize = a.len();
    for i in 0..n
        invariant
            n == a@.len(),
            n == b@.len(),
            forall|j: int| 0 <= j < i ==> a@[j] == b@[j],
    {
        if a[i] != b[i] {
            return false;
        }
    }
    assert(a@ =~= b@);
    true
}

/// Whether the two strings are equal.
pub fn same_str(a: &str, b: &str) -> (yes: bool)
    ensures
        yes == (a@ == b@),
{
    let x: Vec<char> = chars_of(a);
    let y: Vec<char> = chars_of(b);
    same(x.as_slice(), y.as_slice())
}

/// Whether the two slices are equal up to ASCII case.
pub fn same_ignoring_case(a: &[char], b: &[char]) -> (yes: bool)
    ensures
        yes == same_letters(a@, b@),
{
    if a.len() != b.len() {
        assert(lowered(a@).len() != lowered(b@).len());
        return false;
    }
    let n: usize = a.len();
    for i in 0..n
        invariant
            n == a@.len(),
            n == b@.len(),
            forall|j: int| 0 <= j < i ==> lower(#[trigger] a@[j]) == lower(b@[j]),
    {
        if to_lower(a[i]) != to_lower(b[i]) {
            assert(lowered(a@)[i as int] != lowered(b@)[i as int]);
            return false;
        }
    }
    assert(lowered(a@) =~= lowered(b@));
    true
}

/// An index with what `first_where` promises is what it gives.
pub proof fn lemma_first_where(s: Seq<char>, p: spec_fn(char) -> bool, k: int)
    requires
        0 <= k <= s.len(),
        forall|j: int| 0 <= j < k ==> !p(#[trigger] s[j]),
        k < s.len() ==> p(s[k]),
    ensures
        first_where(s, p) == k,
    decreases s.len(),
{
    if s.len() > 0 && !p(s[0]) {
        assert(k > 0);
        assert forall|j: int| 0 <= j < k - 1 implies !p(#[trigger] s.skip(1)[j]) by {
            assert(s.skip(1)[j] == s[j + 1]);
        }
        if k < s.len() {
            assert(s.skip(1)[k - 1] == s[k]);
        }
        lemma_first_where(s.skip(1), p, k - 1);
    } else if s.len() > 0 && k > 0 {
        assert(!p(s[0]));
    }
}

/// What `first_where` gives: everything before it lacks the property, and it
/// has it unless it is the length.
pub proof fn lemma_first_where_bounds(s: Seq<char>, p: spec_fn(char) -> bool)
    ensures
        0 <= first_where(s, p) <= s.len(),
        forall|j: int| 0 <= j < first_where(s, p) ==> !p(#[trigger] s[j]),
        first_where(s, p) < s.len() ==> p(s[first_where(s, p)]),
    decreases s.len(),
{
    if s.len() > 0 && !p(s[0]) {
        lemma_first_where_bounds(s.skip(1), p);
        let k = first_where(s.skip(1), p);
        assert forall|j: int| 0 <= j < k + 1 implies !p(#[trigger] s[j]) by {
            if j > 0 {
                assert(s.skip(1)[j - 1] == s[j]);
            }
        }
        if k + 1 < s.len() {
            assert(s.skip(1)[k] == s[k + 1]);
        }
    }
}

/// The index of the first `x`, or the length.
pub fn find_char(s: &[char], x: char) -> (k: usize)
    ensures
        k == first_where(s@, is_the(x)),
        k <= s@.len(),
{
    let n: usize = s.len();
    let mut k: usize = 0;
    while k < n && s[k] != x
        invariant
            k <= n,
            n == s@.len(),
            forall|j: int| 0 <= j < k ==> s@[j] != x,
        decreases n - k,
    {
        k += 1;
    }
    proof {
        lemma_first_where(s@, is_the(x), k as int);
    }
    k
}

/// The index of the first white space, or the length.
pub fn find_white(s: &[char]) -> (k: usize)
    ensures
        k == first_where(s@, is_white()),
        k <= s@.len(),
{
    let n: usize = s.len();
    let mut k: usize = 0;
    while k < n && !is_whitespace(s[k])
        invariant
            k <= n,
            n == s@.len(),
            forall|j: int| 0 <= j < k ==> !white(#[trigger] s@[j]),
        decreases n - k,
    {
        k += 1;
    }
    proof {
        lemma_first_where(s@, is_white(), k as int);
    }
    k
}

/// The index of the first character that is not white space, or the length.
pub fn find_ink(s: &[char]) -> (k: usize)
    ensures
        k == first_where(s@, is_ink()),
        k <= s@.len(),
{
    let n: usize = s.len();
    let mut k: usize = 0;
    while k < n && is_whitespace(s[k])
        invariant
            k <= n,
            n == s@.len(),
            forall|j: int| 0 <= j < k ==> white(#[trigger] s@[j]),
        decreases n - k,
    {
        k += 1;
    }
    proof {
        lemma_first_where(s@, is_ink(), k as int);
    }
    k
}

/// The slice without the white space around it.
pub fn trim(s: &[char]) -> (out: &[char])
    ensures
        out@ == trimmed(s@),
{
    let from: usize = find_ink(s);
    let t = slice_subrange(s, from, s.len());
    assert(t@ =~= trim_front(s@));
    let n: usize = t.len();
    let mut k: usize = n;
    assert(t@.take(n as int) =~= t@);
    while k > 0 && is_whitespace(t[k - 1])
        invariant
            k <= n,
            n == t@.len(),
            trim_back(t@) == trim_back(t@.take(k as int)),
        decreases k,
    {
        assert(t@.take(k as int).drop_last() =~= t@.take(k - 1));
        k -= 1;
    }
    assert(trim_back(t@.take(k as int)) == t@.take(k as int));
    let out = slice_subrange(t, 0, k);
    assert(out@ =~= t@.take(k as int));
    out
}

/// A text is blank exactly when trimming it leaves nothing.
pub proof fn lemma_blank(s: Seq<char>)
    ensures
        blank(s) <==> trimmed(s).len() == 0,
{
    lemma_first_where_bounds(s, is_ink());
    let k = first_where(s, is_ink());
    let t = trim_front(s);
    if blank(s) {
        if k < s.len() {
            assert(white(s[k]));
        }
        assert(t.len() == 0);
    } else {
        let i = choose|i: int| 0 <= i < s.len() && !white(#[trigger] s[i]);
        if k == s.len() {
            assert(is_ink()(s[i]));
        }
        assert(t.len() > 0 && !white(t[0]));
        lemma_trim_back_keeps(t);
    }
}

/// Trimming the end keeps a text that starts with ink non-empty.
proof fn lemma_trim_back_keeps(s: Seq<char>)
    requires
        s.len() > 0,
        !white(s[0]),
    ensures
        trim_back(s).len() > 0,
        trim_back(s)[0] == s[0],
    decreases s.len(),
{
    if white(s.last()) {
        assert(s.len() > 1);
        lemma_trim_back_keeps(s.drop_last());
    }
}

/// Trimming takes away the white space around a text that starts and ends in
/// ink, and nothing else.
pub proof fn law_trimming_keeps_the_ink(before: Seq<char>, s: Seq<char>, behind: Seq<char>)
    requires
        blank(before),
        blank(behind),
        s.len() > 0,
        !white(s[0]),
        !white(s.last()),
    ensures
        trimmed(before + s + behind) == s,
{
    let all = before + s + behind;
    let n = before.len() as int;
    assert forall|j: int| 0 <= j < n implies !is_ink()(#[trigger] all[j]) by {
        assert(white(before[j]));
    }
    assert(all[n] == s[0]);
    lemma_first_where(all, is_ink(), n);
    assert(all.skip(n) =~= s + behind);
    lemma_trim_back_of(s, behind);
}

proof fn lemma_trim_back_of(s: Seq<char>, behind: Seq<char>)
    requires
        blank(behind),
        s.len() > 0,
        !white(s.last()),
    ensures
        trim_back(s + behind) == s,
    decreases behind.len(),
{
    let all = s + behind;
    if behind.len() == 0 {
        assert(all =~= s);
    } else {
        assert(white(behind[behind.len() - 1]));
        assert(all.drop_last() =~= s + behind.drop_last());
        assert(blank(behind.drop_last()));
        lemma_trim_back_of(s, behind.drop_last());
    }
}

/// Whether the slice holds nothing but white space.
pub fn is_blank(s: &[char]) -> (yes: bool)
    ensures
        yes == blank(s@),
        yes == (trimmed(s@).len() == 0),
{
    let k: usize = find_ink(s);
    proof {
        lemma_blank(s@);
        lemma_first_where_bounds(s@, is_ink());
        if k == s@.len() {
            assert forall|i: int| 0 <= i < s@.len() implies white(#[trigger] s@[i]) by {
                assert(!is_ink()(s@[i]));
            }
        } else {
            assert(is_ink()(s@[k as int]));
        }
    }
    k == s.len()
}

/// Whether the slice holds the character `x`.
pub fn has_char(s: &[char], x: char) -> (yes: bool)
    ensures
        yes == s@.contains(x),
{
    let k: usize = find_char(s, x);
    proof {
        lemma_first_where_bounds(s@, is_the(x));
        if k == s@.len() && s@.contains(x) {
            let i = choose|i: int| 0 <= i < s@.len() && s@[i] == x;
            assert(is_the(x)(s@[i]));
        }
    }
    k < s.len()
}

/// Whether the slice holds white space.
pub fn has_white(s: &[char]) -> (yes: bool)
    ensures
        yes == any_white(s@),
{
    let k: usize = find_white(s);
    proof {
        lemma_first_where_bounds(s@, is_white());
        if k < s@.len() {
            assert(white(s@[k as int]));
        } else {
            assert forall|i: int| 0 <= i < s@.len() implies !white(#[trigger] s@[i]) by {
                assert(!is_white()(s@[i]));
            }
        }
    }
    k < s.len()
}

/// The words of the slice.
pub fn split_words(s: &[char]) -> (out: Vec<String>)
    ensures
        contents(out@) == words(s@),
{
    let mut out: Vec<String> = Vec::new();
    let mut rest = s;
    assert(contents(out@) + words(s@) =~= words(s@));
    loop
        invariant
            contents(out@) + words(rest@) == words(s@),
        ensures
            contents(out@) == words(s@),
        decreases rest@.len(),
    {
        let from: usize = find_ink(rest);
        let t = slice_subrange(rest, from, rest.len());
        assert(t@ =~= trim_front(rest@));
        if t.len() == 0 {
            assert(words(rest@) =~= Seq::<Seq<char>>::empty());
            assert(contents(out@) =~= words(s@));
            break;
        }
        let n: usize = find_white(t);
        proof {
            lemma_first_where_bounds(rest@, is_ink());
            lemma_first_where_bounds(t@, is_white());
            assert(is_ink()(rest@[from as int]));
            assert(t@[0] == rest@[from as int]);
            assert(n > 0);
        }
        let word = slice_subrange(t, 0, n);
        let next = slice_subrange(t, n, t.len());
        let ghost before = out@;
        out.push(string_of(word));
        proof {
            assert(word@ =~= t@.take(n as int));
            assert(next@ =~= t@.skip(n as int));
            assert(contents(out@) =~= contents(before).push(word@));
            assert(words(rest@) == seq![t@.take(n as int)] + words(t@.skip(n as int)));
            assert(contents(before) + words(rest@) =~= contents(out@) + words(next@));
        }
        rest = next;
    }
    out
}

/// The lines of the slice.
pub fn split_lines(s: &[char]) -> (out: Vec<String>)
    ensures
        contents(out@) == lines(s@),
{
    let mut out: Vec<String> = Vec::new();
    let mut rest = s;
    assert(contents(out@) + lines(s@) =~= lines(s@));
    while rest.len() > 0
        invariant
            contents(out@) + lines(rest@) == lines(s@),
        decreases rest@.len(),
    {
        let n: usize = find_char(rest, '\n');
        let ghost before = out@;
        if n == rest.len() {
            out.push(string_of(rest));
            let next = slice_subrange(rest, n, rest.len());
            proof {
                assert(contents(out@) =~= contents(before).push(rest@));
                assert(lines(rest@) =~= seq![rest@]);
                assert(lines(next@) =~= Seq::<Seq<char>>::empty());
                assert(contents(before) + lines(rest@) =~= contents(out@) + lines(next@));
            }
            rest = next;
        } else {
            let line = slice_subrange(rest, 0, n);
            let next = slice_subrange(rest, n + 1, rest.len());
            assert(line@ =~= rest@.take(n as int));
            assert(next@ =~= rest@.skip(n + 1));
            let end: usize = if n > 0 && line[n - 1] == '\r' {
                n - 1
            } else {
                n
            };
            let kept = slice_subrange(line, 0, end);
            assert(kept@ =~= without_return(line@));
            out.push(string_of(kept));
            proof {
                assert(contents(out@) =~= contents(before).push(kept@));
                assert(lines(rest@) == seq![without_return(rest@.take(n as int))] + lines(
                    rest@.skip(n + 1),
                ));
                assert(contents(before) + lines(rest@) =~= contents(out@) + lines(next@));
            }
            rest = next;
        }
    }
    assert(lines(rest@) =~= Seq::<Seq<char>>::empty());
    assert(contents(out@) =~= contents(out@) + lines(rest@));
    out
}

/// The value of `c` as a digit in `radix`.
pub fn digit_of(c: char, radix: u32) -> (out: Option<u32>)
    requires
        2 <= radix <= 16,
    ensures
        match out {
            Some(d) => digit(c, radix as int) == Some(d as int) && d < radix,
            None => digit(c, radix as int) is None,
        },
{
    let d: u32 = if '0' <= c && c <= '9' {
        c as u32 - '0' as u32
    } else if 'a' <= c && c <= 'f' {
        c as u32 - 'a' as u32 + 10
    } else if 'A' <= c && c <= 'F' {
        c as u32 - 'A' as u32 + 10
    } else {
        99
    };
    if d < radix {
        Some(d)
    } else {
        None
    }
}

/// A run of digits that goes over a bound, or is broken, stays so when more
/// follows.
proof fn lemma_digits_grow(s: Seq<char>, radix: int, k: int, max: int)
    requires
        2 <= radix,
        0 <= k <= s.len(),
        match digits_value(s.take(k), radix) {
            Some(v) => v > max,
            None => true,
        },
        max >= 0,
    ensures
        match digits_value(s, radix) {
            Some(v) => v > max,
            None => true,
        },
    decreases s.len(),
{
    if k == s.len() {
        assert(s.take(k) =~= s);
    } else {
        assert(s.drop_last().take(k) =~= s.take(k));
        lemma_digits_grow(s.drop_last(), radix, k, max);
        if digits_value(s, radix) is Some {
            let v = digits_value(s.drop_last(), radix).unwrap();
            assert(v * radix >= v) by (nonlinear_arith)
                requires
                    v >= 0,
                    radix >= 2,
            ;
        }
    }
}

/// The number that the slice stands for, if it is one and at most `max`.
pub fn parse_number(s: &[char], radix: u32, max: u32) -> (out: Option<u32>)
    requires
        2 <= radix <= 16,
    ensures
        match out {
            Some(v) => number(s@, radix as int, max as int) == Some(v as int),
            None => number(s@, radix as int, max as int) is None,
        },
{
    let t = if s.len() > 0 && s[0] == '+' {
        slice_subrange(s, 1, s.len())
    } else {
        s
    };
    assert(s@.len() > 0 && s@[0] == '+' ==> t@ =~= s@.skip(1));
    let n: usize = t.len();
    if n == 0 {
        return None;
    }
    let mut v: u64 = 0;
    assert(t@.take(0).len() == 0);
    for i in 0..n
        invariant
            n == t@.len(),
            n > 0,
            2 <= radix <= 16,
            v <= max,
            digits_value(t@.take(i as int), radix as int) == Some(v as int),
            s@.len() > 0 && s@[0] == '+' ==> t@ == s@.skip(1),
            !(s@.len() > 0 && s@[0] == '+') ==> t@ == s@,
    {
        proof {
            assert(t@.take(i + 1).drop_last() =~= t@.take(i as int));
            assert(v * radix + 16 <= 0x1_0000_0000 * 16) by (nonlinear_arith)
                requires
                    v <= 0xffff_ffff,
                    radix <= 16,
            ;
        }
        match digit_of(t[i], radix) {
            Some(d) => {
                v = v * radix as u64 + d as u64;
                if v > max as u64 {
                    proof {
                        lemma_digits_grow(t@, radix as int, i + 1, max as int);
                    }
                    return None;
                }
            },
            None => {
                proof {
                    lemma_digits_grow(t@, radix as int, i + 1, max as int);
                }
                return None;
            },
        }
    }
    assert(t@.take(n as int) =~= t@);
    Some(v as u32)
}

/// Appends the decimal digits of `n`.
pub fn push_decimal(out: &mut String, n: u64)
    ensures
        final(out)@ == old(out)@ + decimal(n as nat),
    decreases n,
{
    if n >= 10 {
        push_decimal(out, n / 10);
    }
    out.push((48u8 + (n % 10) as u8) as char);
    assert(out@ =~= old(out)@ + decimal(n as nat));
}

/// The decimal digits of `n`.
pub fn decimal_string(n: u64) -> (out: String)
    ensures
        out@ == decimal(n as nat),
{
    let mut out = String::new();
    push_decimal(&mut out, n);
    assert(out@ =~= decimal(n as nat));
    out
}

/// The decimal digits of a number stand for that number.
pub proof fn lemma_decimal_value(n: nat)
    ensures
        digits_value(decimal(n), 10) == Some(n as int),
        decimal(n).len() > 0,
    decreases n,
{
    if n < 10 {
        let s = decimal(n);
        assert(s.drop_last() =~= Seq::<char>::empty());
        assert(digits_value(s.drop_last(), 10) == Some(0int));
        assert(s.last() == ('0' as u32 + n) as char);
    } else {
        lemma_decimal_value(n / 10);
        let s = decimal(n);
        assert(s.drop_last() =~= decimal(n / 10));
        assert(s.last() == ('0' as u32 + n % 10) as char);
    }
}

/// The text that UTF-16 units stand for. A unit that is half of a pair without
/// the other half stands for the replacement character.
pub open spec fn utf16(units: Seq<u16>) -> Seq<char>
    decreases units.len(),
{
    if units.len() == 0 {
        Seq::empty()
    } else if units[0] < 0xd800 || units[0] > 0xdfff {
        seq![units[0] as char] + utf16(units.skip(1))
    } else if units[0] <= 0xdbff && units.len() > 1 && 0xdc00 <= units[1] <= 0xdfff {
        seq![(0x10000 + (units[0] - 0xd800) * 0x400 + (units[1] - 0xdc00)) as char] + utf16(
            units.skip(2),
        )
    } else {
        seq!['\u{fffd}'] + utf16(units.skip(1))
    }
}

/// `String::from_utf16_lossy` decodes UTF-16: pairs of surrogates become the
/// character they stand for, and each surrogate without its other half becomes
/// the replacement character.
pub assume_specification[ String::from_utf16_lossy ](units: &[u16]) -> (out: String)
    ensures
        out@ == utf16(units@),
;

/// Whether a text holds another one in a row.
pub open spec fn holds_run(s: Seq<char>, run: Seq<char>) -> bool {
    exists|i: int|
        0 <= i <= s.len() - run.len() && #[trigger] s.subrange(i, i + run.len()) == run
}

/// Whether a text holds another one in a row.
pub fn has_run(s: &[char], run: &[char]) -> (yes: bool)
    ensures
        yes == holds_run(s@, run@),
{
    let n: usize = s.len();
    let m: usize = run.len();
    if m > n {
        return false;
    }
    let mut i: usize = 0;
    while i <= n - m
        invariant
            n == s@.len(),
            m == run@.len(),
            m <= n,
            i <= n - m + 1,
            forall|k: int| 0 <= k < i ==> #[trigger] s@.subrange(k, k + m) != run@,
        decreases n - i + 1,
    {
        let part = slice_subrange(s, i, i + m);
        if same(part, run) {
            assert(s@.subrange(i as int, i + m) == run@);
            return true;
        }
        if i == n - m {
            return false;
        }
        i += 1;
    }
    false
}

/// A text with its ASCII letters in lower case.
pub fn lower_chars(s: &[char]) -> (out: Vec<char>)
    ensures
        out@ == lowered(s@),
{
    let mut out: Vec<char> = Vec::new();
    let n: usize = s.len();
    for i in 0..n
        invariant
            n == s@.len(),
            out@.len() == i,
            forall|k: int| 0 <= k < i ==> #[trigger] out@[k] == lower(s@[k]),
    {
        out.push(to_lower(s[i]));
    }
    assert(out@ =~= lowered(s@));
    out
}

/// How a number is written: one digit for a number below ten, and one digit more
/// for ten times a number and what is added to it.
pub proof fn law_decimal_digits(n: nat, d: nat)
    requires
        d < 10,
    ensures
        decimal(d) == seq![(48 + d) as char],
        n > 0 ==> decimal(10 * n + d) == decimal(n).push((48 + d) as char),
        n > 0 ==> '1' <= decimal(n)[0] <= '9',
        forall|i: int| 0 <= i < decimal(n).len() ==> '0' <= #[trigger] decimal(n)[i] <= '9',
    decreases n,
{
    if n > 0 {
        assert((10 * n + d) / 10 == n && (10 * n + d) % 10 == d) by (nonlinear_arith)
            requires
                d < 10,
        ;
    }
    if n >= 10 {
        law_decimal_digits(n / 10, n % 10);
        let rest = decimal(n / 10);
        assert forall|i: int| 0 <= i < decimal(n).len() implies '0' <= #[trigger] decimal(n)[i]
            <= '9' by {
            if i < rest.len() {
                assert(decimal(n)[i] == rest[i]);
            }
        }
        assert(decimal(n)[0] == rest[0]);
    }
}

/// A number that is written reads back as itself, with a plus sign before it or
/// without, unless it is over the limit.
pub proof fn law_numbers_read_back(n: nat, max: int)
    ensures
        number(decimal(n), 10, max) == (if n <= max {
            Some(n as int)
        } else {
            None
        }),
        number(seq!['+'] + decimal(n), 10, max) == number(decimal(n), 10, max),
{
    lemma_decimal_value(n);
    law_decimal_digits(n, 0);
    assert(decimal(n)[0] != '+');
    assert((seq!['+'] + decimal(n)).skip(1) =~= decimal(n));
}

/// One more decimal digit makes a number ten times as large and adds the digit.
pub proof fn law_digits_are_places(s: Seq<char>, d: int)
    requires
        0 <= d < 10,
    ensures
        digits_value(Seq::empty(), 10) == Some(0int),
        digits_value(s.push((48 + d) as char), 10) == (match digits_value(s, 10) {
            Some(v) => Some(10 * v + d),
            None => None,
        }),
{
    let all = s.push((48 + d) as char);
    assert(all.drop_last() =~= s);
}

proof fn lemma_not_all_digits(s: Seq<char>, i: int)
    requires
        0 <= i < s.len(),
        !('0' <= s[i] <= '9'),
    ensures
        digits_value(s, 10) is None,
    decreases s.len(),
{
    if i < s.len() - 1 {
        lemma_not_all_digits(s.drop_last(), i);
    }
}

/// A text with anything in it but decimal digits, save for a plus sign at its
/// start, is no number, and neither is one without a digit.
pub proof fn law_only_digits_are_numbers(s: Seq<char>, i: int, max: int)
    requires
        s.len() == 0 || s == seq!['+'] || (0 <= i < s.len() && !('0' <= s[i] <= '9') && (i > 0
            || s[i] != '+')),
    ensures
        number(s, 10, max) is None,
{
    if s == seq!['+'] {
        assert(s.skip(1).len() == 0);
    } else if s.len() > 0 {
        if s[0] == '+' {
            assert(s.skip(1)[i - 1] == s[i]);
            lemma_not_all_digits(s.skip(1), i - 1);
        } else {
            lemma_not_all_digits(s, i);
        }
    }
}

/// The words of a text come one after the other: white space before the first
/// does not count, and the word ends where white space follows.
pub proof fn law_words_are_parted_by_white(
    before: Seq<char>,
    word: Seq<char>,
    rest: Seq<char>,
)
    requires
        blank(before),
        word.len() > 0,
        !any_white(word),
        rest.len() > 0 ==> white(rest[0]),
    ensures
        words(before) == Seq::<Seq<char>>::empty(),
        words(before + word + rest) == seq![word] + words(rest),
{
    let all = before + word + rest;
    let n = before.len() as int;
    assert forall|j: int| 0 <= j < n implies !is_ink()(#[trigger] all[j]) by {
        assert(white(before[j]));
    }
    assert(all[n] == word[0]);
    lemma_first_where(all, is_ink(), n);
    assert forall|j: int| 0 <= j < n implies !is_ink()(#[trigger] before[j]) by {}
    lemma_first_where(before, is_ink(), n);
    let t = word + rest;
    assert(all.skip(n) =~= t);
    let m = word.len() as int;
    assert forall|j: int| 0 <= j < m implies !is_white()(#[trigger] t[j]) by {
        assert(t[j] == word[j]);
    }
    lemma_first_where(t, is_white(), m);
    assert(t.take(m) =~= word);
    assert(t.skip(m) =~= rest);
}

/// The lines of a text come one after the other, whichever of the two line ends
/// stands between them; the last one needs none.
pub proof fn law_lines_are_parted_by_their_ends(line: Seq<char>, rest: Seq<char>)
    requires
        !line.contains('\n'),
        line.len() > 0 ==> line.last() != '\r',
    ensures
        lines(line) == (if line.len() == 0 {
            Seq::<Seq<char>>::empty()
        } else {
            seq![line]
        }),
        lines(line + seq!['\n'] + rest) == seq![line] + lines(rest),
        lines(line + seq!['\r', '\n'] + rest) == seq![line] + lines(rest),
{
    let n = line.len() as int;
    assert forall|j: int| 0 <= j < n implies !is_the('\n')(#[trigger] line[j]) by {
        assert(line.contains(line[j]));
    }
    lemma_first_where(line, is_the('\n'), n);
    let a = line + seq!['\n'] + rest;
    assert forall|j: int| 0 <= j < n implies !is_the('\n')(#[trigger] a[j]) by {
        assert(a[j] == line[j]);
    }
    assert(a[n] == '\n');
    lemma_first_where(a, is_the('\n'), n);
    assert(a.take(n) =~= line);
    assert(a.skip(n + 1) =~= rest);
    let b = line + seq!['\r', '\n'] + rest;
    assert forall|j: int| 0 <= j < n + 1 implies !is_the('\n')(#[trigger] b[j]) by {
        if j < n {
            assert(b[j] == line[j]);
        }
    }
    assert(b[n + 1] == '\n');
    lemma_first_where(b, is_the('\n'), n + 1);
    assert(b.take(n + 1) =~= line.push('\r'));
    assert(line.push('\r').drop_last() =~= line);
    assert(b.skip(n + 2) =~= rest);
}

/// Which characters are white space, by their numbers in Unicode.
pub proof fn law_white_space(c: char)
    ensures
        white(c) <==> {
            let v = c as u32;
            ||| 9 <= v <= 13 || v == 32 || v == 133 || v == 160 || v == 5760
            ||| 8192 <= v <= 8202 || v == 8232 || v == 8233 || v == 8239 || v == 8287 || v == 12288
        },
        control(c) <==> (c as u32) < 32 || 127 <= (c as u32) < 160,
{
}

/// Two texts are the same up to case exactly where they are equally long and each
/// pair of characters is equal, or the two forms of one ASCII letter, which are
/// 32 apart.
pub proof fn law_case_is_all_that_may_differ(a: Seq<char>, b: Seq<char>)
    ensures
        same_letters(a, b) <==> a.len() == b.len() && forall|i: int|
            0 <= i < a.len() ==> {
                let x = #[trigger] a[i] as int;
                let y = b[i] as int;
                x == y || (65 <= x <= 90 && y == x + 32) || (65 <= y <= 90 && x == y + 32)
            },
{
    if same_letters(a, b) {
        assert(lowered(a).len() == lowered(b).len());
        assert forall|i: int| 0 <= i < a.len() implies {
            let x = #[trigger] a[i] as int;
            let y = b[i] as int;
            x == y || (65 <= x <= 90 && y == x + 32) || (65 <= y <= 90 && x == y + 32)
        } by {
            assert(lowered(a)[i] == lowered(b)[i]);
        }
    } else if a.len() == b.len() {
        if forall|i: int|
            0 <= i < a.len() ==> {
                let x = #[trigger] a[i] as int;
                let y = b[i] as int;
                x == y || (65 <= x <= 90 && y == x + 32) || (65 <= y <= 90 && x == y + 32)
            } {
            assert forall|i: int| 0 <= i < a.len() implies lower(a[i]) == lower(b[i]) by {
                assert(a[i] as int == a[i] as int);
            }
            assert(lowered(a) =~= lowered(b));
        }
    }
}

/// A number may start with a plus sign, which changes nothing, and with no other sign.
/// Without a digit it is none, and neither is one that is too large.
pub proof fn law_signs_of_numbers(s: Seq<char>, radix: int, max: int)
    requires
        2 <= radix <= 16,
    ensures
        s.len() > 0 && s[0] != '+' ==> number(seq!['+'] + s, radix, max) == number(s, radix, max),
        number(Seq::empty(), radix, max) is None,
        number(seq!['+'], radix, max) is None,
        number(seq!['+', '+'] + s, radix, max) is None,
        number(seq!['-'] + s, radix, max) is None,
        number(s, radix, max) matches Some(v) ==> 0 <= v <= max,
{
    let t = seq!['+'] + s;
    assert(t[0] == '+' && t.skip(1) =~= s);
    assert(seq!['+'].skip(1) =~= Seq::<char>::empty());
    let u = seq!['+', '+'] + s;
    assert(u.skip(1) =~= seq!['+'] + s);
    lemma_bad_first_digit('+', s, radix);
    lemma_bad_first_digit('-', s, radix);
    let m = seq!['-'] + s;
    assert(m[0] == '-');
    lemma_value_is_no_less_than_zero(s, radix);
    if s.len() > 0 {
        lemma_value_is_no_less_than_zero(s.skip(1), radix);
    }
}

proof fn lemma_value_is_no_less_than_zero(s: Seq<char>, radix: int)
    requires
        2 <= radix <= 16,
    ensures
        digits_value(s, radix) matches Some(v) ==> v >= 0,
    decreases s.len(),
{
    if s.len() > 0 {
        lemma_value_is_no_less_than_zero(s.drop_last(), radix);
        if let Some(v) = digits_value(s.drop_last(), radix) {
            assert(v * radix >= 0) by (nonlinear_arith)
                requires
                    v >= 0,
                    radix >= 2,
            ;
        }
    }
}

proof fn lemma_bad_first_digit(c: char, s: Seq<char>, radix: int)
    requires
        digit(c, radix) is None,
    ensures
        digits_value(seq![c] + s, radix) is None,
    decreases s.len(),
{
    let t = seq![c] + s;
    if s.len() == 0 {
        assert(t.last() == c);
    } else {
        assert(t.drop_last() =~= seq![c] + s.drop_last());
        lemma_bad_first_digit(c, s.drop_last(), radix);
    }
}

/// The control characters are those below the space, the delete character, and the 32
/// behind it.
pub proof fn law_control_characters(c: char)
    ensures
        control(c) <==> (c as u32) < 32 || 127 <= c as u32 <= 159,
{
}

/// A text holds another in a row exactly where it is made of something, that other, and
/// something.
pub proof fn law_what_a_text_holds(a: Seq<char>, run: Seq<char>, b: Seq<char>, s: Seq<char>)
    ensures
        holds_run(a + run + b, run),
        holds_run(s, run) ==> exists|x: Seq<char>, y: Seq<char>| s == #[trigger] (x + run + y),
{
    let t = a + run + b;
    assert(t.subrange(a.len() as int, (a.len() + run.len()) as int) =~= run);
    assert(t.subrange(a.len() as int, a.len() as int + run.len()) == run);
    if holds_run(s, run) {
        let i = choose|i: int|
            0 <= i <= s.len() - run.len() && #[trigger] s.subrange(i, i + run.len()) == run;
        let x = s.take(i);
        let y = s.skip(i + run.len());
        assert(s =~= x + run + y) by {
            assert forall|k: int| 0 <= k < s.len() implies s[k] == (x + run + y)[k] by {
                if i <= k < i + run.len() {
                    assert(run[k - i] == s.subrange(i, i + run.len())[k - i]);
                }
            }
        }
    }
}

/// How units of 16 bits give characters: one that is no surrogate gives itself, a high one
/// before a low one gives the character that the two stand for, and any other gives the
/// replacement character.
pub proof fn law_units_give_characters(unit: u16, low: u16, rest: Seq<u16>)
    ensures
        utf16(Seq::empty()).len() == 0,
        unit < 0xd800 || unit > 0xdfff ==> utf16(seq![unit] + rest) == seq![unit as char] + utf16(
            rest,
        ),
        0xd800 <= unit <= 0xdbff && 0xdc00 <= low <= 0xdfff ==> utf16(seq![unit, low] + rest)
            == seq![(65536 + 1024 * (unit - 55296) + (low - 56320)) as char] + utf16(rest),
        0xdc00 <= unit <= 0xdfff ==> utf16(seq![unit] + rest) == seq!['\u{fffd}'] + utf16(rest),
        0xd800 <= unit <= 0xdbff && (rest.len() == 0 || rest[0] < 0xdc00 || rest[0] > 0xdfff)
            ==> utf16(seq![unit] + rest) == seq!['\u{fffd}'] + utf16(rest),
{
    let one = seq![unit] + rest;
    assert(one[0] == unit && one.skip(1) =~= rest);
    let two = seq![unit, low] + rest;
    assert(two[0] == unit && two[1] == low && two.skip(2) =~= rest);
    if rest.len() > 0 {
        assert(one[1] == rest[0]);
    }
}

/// The models of texts hold the texts themselves.
pub proof fn law_models_hold_the_text(list: Seq<String>, s: Option<String>, i: int)
    ensures
        contents(list).len() == list.len(),
        0 <= i < list.len() ==> contents(list)[i] == list[i]@,
        s is None ==> optional(s) is None,
        s matches Some(text) ==> optional(s) == Some(text@),
{
}

} // verus!
