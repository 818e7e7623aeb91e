//! Editing text fields: the keys that an input method owns, and the menu that
//! copies, cuts, pastes and selects.

use crate::input::{ImeEvent, InputEvent, Key};
use crate::text::{chars_of, string_of};
use vstd::prelude::*;
use vstd::slice::slice_subrange;
use vstd::utf8::encode_utf8;

verus! {

/// Whether the event says that a candidate list is open.
pub open spec fn opens_list(event: InputEvent) -> bool {
    event matches InputEvent::Ime(e) && (e is Enabled || e is Preedit)
}

/// Whether the event says that no candidate list is open any more.
pub open spec fn closes_list(event: InputEvent) -> bool {
    event matches InputEvent::Ime(e) && (e is Commit || e is Disabled)
}

/// Whether the event is Enter being pressed.
pub open spec fn is_enter(event: InputEvent) -> bool {
    event matches InputEvent::Key { key, pressed, .. } && key == Key::Enter && pressed
}

/// Whether a candidate list is open in a frame with these events: it was open
/// before, or the frame itself opens one.
pub open spec fn list_open(before: bool, events: Seq<InputEvent>) -> bool {
    before || exists|i: int| 0 <= i < events.len() && opens_list(#[trigger] events[i])
}

/// Whether a candidate list is open after the events.
pub open spec fn list_open_after(before: bool, events: Seq<InputEvent>) -> bool
    decreases events.len(),
{
    if events.len() == 0 {
        before
    } else if opens_list(events.last()) {
        true
    } else if closes_list(events.last()) {
        false
    } else {
        list_open_after(before, events.drop_last())
    }
}

/// The events without Enter being pressed.
pub open spec fn without_enter(events: Seq<InputEvent>) -> Seq<InputEvent>
    decreases events.len(),
{
    if events.len() == 0 {
        Seq::empty()
    } else if is_enter(events.last()) {
        without_enter(events.drop_last())
    } else {
        without_enter(events.drop_last()).push(events.last())
    }
}

/// Whether a candidate list is open in this frame.
///
/// Enter is how a composition is committed. A form that saves on Enter has to
/// ask this first, or picking a candidate also submits the form. What counts is
/// the state from the start of the frame: the commit and the Enter arrive
/// together.
pub fn ime_composing(remembered: bool, events: &Vec<InputEvent>) -> (yes: bool)
    ensures
        yes == list_open(remembered, events@),
{
    if remembered {
        return true;
    }
    let n: usize = events.len();
    let mut i: usize = 0;
    while i < n
        invariant
            i <= n,
            n == events@.len(),
            forall|k: int| 0 <= k < i ==> !opens_list(#[trigger] events@[k]),
        decreases n - i,
    {
        let open = match &events[i] {
            InputEvent::Ime(ImeEvent::Enabled) => true,
            InputEvent::Ime(ImeEvent::Preedit(_)) => true,
            _ => false,
        };
        if open {
            assert(opens_list(events@[i as int]));
            return true;
        }
        i += 1;
    }
    false
}

/// Removes the keys that an open candidate list owns.
///
/// Enter would otherwise make a field give up the keyboard in the middle of a
/// composition. Only the key goes: what was composed still reaches the field.
pub fn swallow_ime_keys(events: &mut Vec<InputEvent>)
    ensures
        final(events)@ == without_enter(old(events)@),
{
    let ghost all = events@;
    let mut kept: Vec<InputEvent> = Vec::new();
    let mut list: Vec<InputEvent> = Vec::new();
    list.append(events);
    assert(all.take(0) =~= Seq::<InputEvent>::empty());
    for event in it: list
        invariant
            it.seq() == all,
            kept@ == without_enter(all.take(it.index() as int)),
    {
        let ghost k = it.index() as int;
        assert(all.take(k + 1).drop_last() =~= all.take(k));
        assert(all.take(k + 1).last() == event);
        let enter = match &event {
            InputEvent::Key { key: Key::Enter, pressed: true, .. } => true,
            _ => false,
        };
        if !enter {
            kept.push(event);
        }
    }
    assert(all.take(all.len() as int) =~= all);
    *events = kept;
}

/// Whether a candidate list is open after this frame. To be asked once a frame,
/// after everything that asks [`ime_composing`].
pub fn track_ime(remembered: bool, events: &Vec<InputEvent>) -> (composing: bool)
    ensures
        composing == list_open_after(list_open(remembered, events@), events@),
{
    let before = ime_composing(remembered, events);
    let mut composing = before;
    let n: usize = events.len();
    let mut i: usize = 0;
    assert(events@.take(0) =~= Seq::<InputEvent>::empty());
    while i < n
        invariant
            i <= n,
            n == events@.len(),
            composing == list_open_after(before, events@.take(i as int)),
        decreases n - i,
    {
        assert(events@.take(i + 1).drop_last() =~= events@.take(i as int));
        assert(events@.take(i + 1).last() == events@[i as int]);
        match &events[i] {
            InputEvent::Ime(ImeEvent::Enabled) => {
                composing = true;
            },
            InputEvent::Ime(ImeEvent::Preedit(_)) => {
                composing = true;
            },
            InputEvent::Ime(ImeEvent::Commit(_)) => {
                composing = false;
            },
            InputEvent::Ime(ImeEvent::Disabled) => {
                composing = false;
            },
            _ => {},
        }
        i += 1;
    }
    assert(events@.take(n as int) =~= events@);
    composing
}

/// The smaller of the two.
pub open spec fn at_most(i: int, len: int) -> int {
    if i < len {
        i
    } else {
        len
    }
}

/// The text with some of its characters replaced. An index beyond the end stands
/// for the end.
pub open spec fn replaced(text: Seq<char>, start: int, end: int, new: Seq<char>) -> Seq<char> {
    let n = text.len() as int;
    text.take(at_most(start, n)) + new + text.skip(at_most(end, n))
}

/// Where the character stands among the bytes of the text. An index beyond the
/// end stands for the end.
pub fn byte_index(text: &str, char_index: usize) -> (out: usize)
    ensures
        out == encode_utf8(text@.take(at_most(char_index as int, text@.len() as int))).len(),
{
    let n: usize = chars_of(text).len();
    let k: usize = if char_index < n {
        char_index
    } else {
        n
    };
    let chars: Vec<char> = chars_of(text);
    let head: String = string_of(slice_subrange(chars.as_slice(), 0, k));
    assert(head@ =~= text@.take(k as int));
    head.as_str().as_bytes().len()
}

/// Whether a range of characters starts no later than it ends, where both count
/// as the end of the text once they lie behind it.
pub open spec fn in_order(text: Seq<char>, chars: std::ops::Range<usize>) -> bool {
    at_most(chars.start as int, text.len() as int) <= at_most(chars.end as int, text.len() as int)
}

/// Replaces a range of characters, not bytes.
pub fn replace_chars(text: &mut String, chars: std::ops::Range<usize>, replacement: &str)
    requires
        in_order(old(text)@, chars),
    ensures
        final(text)@ == replaced(
            old(text)@,
            chars.start as int,
            chars.end as int,
            replacement@,
        ),
{
    let all: Vec<char> = chars_of(text.as_str());
    let n: usize = all.len();
    let start: usize = if chars.start < n {
        chars.start
    } else {
        n
    };
    let end: usize = if chars.end < n {
        chars.end
    } else {
        n
    };
    let mut out: String = string_of(slice_subrange(all.as_slice(), 0, start));
    out.append(replacement);
    let tail: String = string_of(slice_subrange(all.as_slice(), end, n));
    out.append(tail.as_str());
    assert(out@ =~= replaced(text@, chars.start as int, chars.end as int, replacement@));
    *text = out;
}

/// Cuts the selection out of a field. Gives where the caret is then.
pub fn cut(text: &mut String, selection: std::ops::Range<usize>) -> (caret: usize)
    requires
        in_order(old(text)@, selection),
    ensures
        final(text)@ == replaced(
            old(text)@,
            selection.start as int,
            selection.end as int,
            Seq::empty(),
        ),
        caret == selection.start,
{
    let start: usize = selection.start;
    proof {
        reveal_strlit("");
        assert(""@ =~= Seq::<char>::empty());
    }
    replace_chars(text, selection, "");
    start
}

/// Pastes over the selection of a field, or at its end where nothing was ever
/// selected. Gives where the caret is then.
pub fn paste(text: &mut String, selection: Option<std::ops::Range<usize>>, clipboard: &str) -> (caret: usize)
    requires
        selection matches Some(range) ==> in_order(old(text)@, range) && range.start
            + clipboard@.len() <= usize::MAX,
    ensures
        match selection {
            Some(range) => final(text)@ == replaced(
                old(text)@,
                range.start as int,
                range.end as int,
                clipboard@,
            ) && caret == range.start + clipboard@.len(),
            None => final(text)@ == old(text)@ + clipboard@ && caret == final(text)@.len(),
        },
{
    match selection {
        Some(range) => {
            let start: usize = range.start;
            replace_chars(text, range, clipboard);
            let added: Vec<char> = chars_of(clipboard);
            start + added.len()
        },
        None => {
            text.append(clipboard);
            let all: Vec<char> = chars_of(text.as_str());
            all.len()
        },
    }
}

/// The range of everything in a field.
pub fn select_all(text: &str) -> (range: (usize, usize))
    ensures
        range.0 == 0,
        range.1 == text@.len(),
{
    let all: Vec<char> = chars_of(text);
    (0, all.len())
}

/// Replacing characters keeps everything around them: what stood before and
/// after the range stands there still, in the same order.
pub proof fn law_replacing_keeps_the_rest(
    text: Seq<char>,
    start: int,
    end: int,
    new: Seq<char>,
)
    requires
        0 <= start <= end <= text.len(),
    ensures
        replaced(text, start, end, new).len() == text.len() - (end - start) + new.len(),
        replaced(text, start, end, new).take(start) == text.take(start),
        replaced(text, start, end, new).subrange(start, start + new.len()) == new,
        replaced(text, start, end, new).skip(start + new.len()) == text.skip(end),
{
    let out = replaced(text, start, end, new);
    assert(out.take(start) =~= text.take(start));
    assert(out.subrange(start, start + new.len()) =~= new);
    assert(out.skip(start + new.len()) =~= text.skip(end));
}

/// An open candidate list takes Enter and nothing else: what stays is every event
/// that is no press of Enter, in its order and as often as it came.
pub proof fn law_the_list_takes_enter_alone(events: Seq<InputEvent>)
    ensures
        without_enter(events) == events.filter(|e: InputEvent| !is_enter(e)),
        forall|i: int|
            0 <= i < without_enter(events).len() ==> !is_enter(#[trigger] without_enter(events)[i]),
        forall|i: int|
            0 <= i < events.len() && !is_enter(#[trigger] events[i]) ==> without_enter(
                events,
            ).contains(events[i]),
{
    broadcast use vstd::seq_lib::group_filter_ensures;

    lemma_without_enter(events);
    let kept = |e: InputEvent| !is_enter(e);
    assert forall|i: int| 0 <= i < events.len() && !is_enter(#[trigger] events[i]) implies {
        without_enter(events).contains(events[i])
    } by {
        assert(kept(events[i]));
    }
}

proof fn lemma_without_enter(events: Seq<InputEvent>)
    ensures
        without_enter(events) == events.filter(|e: InputEvent| !is_enter(e)),
    decreases events.len(),
{
    reveal(Seq::filter);
    if events.len() > 0 {
        lemma_without_enter(events.drop_last());
    }
}

/// What each event does to the candidate list: the input method coming into use, and
/// a text being composed, open it; a composed text, and the method going out of use,
/// close it; nothing else does either. Within a frame, one that was open stays so.
pub proof fn law_events_open_and_close_the_list(
    before: bool,
    events: Seq<InputEvent>,
    event: InputEvent,
)
    ensures
        list_open_after(before, events.push(event)) == (match event {
            InputEvent::Ime(ImeEvent::Enabled) => true,
            InputEvent::Ime(ImeEvent::Preedit(_)) => true,
            InputEvent::Ime(ImeEvent::Commit(_)) => false,
            InputEvent::Ime(ImeEvent::Disabled) => false,
            _ => list_open_after(before, events),
        }),
        list_open_after(before, Seq::empty()) == before,
        list_open(before, events.push(event)) == (match event {
            InputEvent::Ime(ImeEvent::Enabled) => true,
            InputEvent::Ime(ImeEvent::Preedit(_)) => true,
            _ => list_open(before, events),
        }),
        list_open(before, Seq::empty()) == before,
{
    let all = events.push(event);
    assert(all.drop_last() =~= events);
    assert(all.last() == event);
    assert(all[events.len() as int] == event);
    if list_open(false, events) {
        let i = choose|i: int| 0 <= i < events.len() && opens_list(#[trigger] events[i]);
        assert(all[i] == events[i]);
    }
    if list_open(false, all) && !list_open(false, events) {
        let i = choose|i: int| 0 <= i < all.len() && opens_list(#[trigger] all[i]);
        if i < events.len() {
            assert(opens_list(events[i]));
        }
    }
}

/// An open candidate list takes a press of Enter, whatever is held with it, and lets
/// everything else through: other keys, and Enter being let go.
pub proof fn law_a_press_of_enter_is_taken(events: Seq<InputEvent>, event: InputEvent)
    ensures
        without_enter(events.push(event)) == (if event matches InputEvent::Key {
            key: Key::Enter,
            pressed: true,
            ..
        } {
            without_enter(events)
        } else {
            without_enter(events).push(event)
        }),
        without_enter(Seq::empty()) == Seq::<InputEvent>::empty(),
{
    assert(events.push(event).drop_last() =~= events);
}

/// Every place behind the end of a text is its end.
pub proof fn law_behind_the_end_is_the_end(
    text: Seq<char>,
    start: int,
    end: int,
    new: Seq<char>,
)
    requires
        0 <= start,
        text.len() <= end,
    ensures
        start <= text.len() ==> replaced(text, start, end, new) == text.take(start) + new,
        start >= text.len() ==> replaced(text, start, end, new) == text + new,
{
    let none = text.skip(text.len() as int);
    assert(none.len() == 0);
    if start <= text.len() {
        assert(text.take(start) + new + none =~= text.take(start) + new);
        if start == text.len() {
            assert(text.take(start) =~= text);
        }
    } else {
        assert(text.take(text.len() as int) + new + none =~= text + new);
    }
}

} // verus!
