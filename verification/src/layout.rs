//! The split tree of a tab: which pane sits where, and how a pane joins or
//! leaves it.

use crate::session::{kind_models, KindModel, SessionKind};
use vstd::prelude::*;

verus! {

/// One where `yes` holds, else nothing.
pub open spec fn once(yes: bool) -> nat {
    if yes {
        1
    } else {
        0
    }
}

/// The direction a split divides its area in.
#[derive(Clone, Copy, Debug, PartialEq, Eq, Structural)]
pub enum Axis {
    Horizontal,
    Vertical,
}

/// A single-precision number, held as its IEEE 754 bit pattern.
///
/// Among the patterns of numbers that are not negative, a greater pattern
/// stands for a greater number; infinity and the values that are no number
/// come after every number.
#[derive(Clone, Copy, Debug, PartialEq, Eq, Structural)]
pub struct Single {
    pub bits: u32,
}

/// The bit pattern of one half.
pub const HALF: u32 = 0x3f00_0000;

/// The bit pattern of one.
pub const ONE: u32 = 0x3f80_0000;

/// The bit pattern of infinity; the greater ones stand for no number.
pub const INFINITY: u32 = 0x7f80_0000;

/// The bit that makes a number negative.
pub const SIGN: u32 = 0x8000_0000;

impl Single {
    /// Whether the number lies strictly between zero and one.
    pub open spec fn inside(self) -> bool {
        0 < self.bits < ONE
    }

    /// Whether the pattern stands for no number.
    pub open spec fn is_nan(self) -> bool {
        INFINITY < self.bits < SIGN || INFINITY + SIGN < self.bits
    }

    /// The nearest number from `low` to `high`, two numbers that are not
    /// negative. What is no number stays as it is.
    pub open spec fn within(self, low: u32, high: u32) -> Single {
        if self.is_nan() {
            self
        } else if self.bits >= SIGN || self.bits < low {
            Single { bits: low }
        } else if self.bits > high {
            Single { bits: high }
        } else {
            self
        }
    }

    /// The nearest number from `low` to `high`.
    pub fn clamp(self, low: u32, high: u32) -> (out: Single)
        requires
            low <= high < INFINITY,
        ensures
            out == self.within(low, high),
    {
        if (INFINITY < self.bits && self.bits < SIGN) || INFINITY + SIGN < self.bits {
            self
        } else if self.bits >= SIGN || self.bits < low {
            Single { bits: low }
        } else if self.bits > high {
            Single { bits: high }
        } else {
            self
        }
    }

    /// Whether the number lies strictly between zero and one.
    pub fn is_inside(self) -> (yes: bool)
        ensures
            yes == self.inside(),
    {
        0 < self.bits && self.bits < ONE
    }
}

/// The deepest nesting of splits a saved layout may have.
pub const MAX_DEPTH: usize = 32;

/// A pane, by its index in the tab, or an area split in two. `ratio` is the
/// share of the first half.
#[derive(Debug)]
pub enum Layout {
    Leaf(usize),
    Split { axis: Axis, ratio: Single, first: Box<Layout>, second: Box<Layout> },
}

/// A tab as it is kept for the next start.
#[derive(Debug)]
pub struct SavedTab {
    /// What each pane runs.
    pub sessions: Vec<SessionKind>,
    /// Where each pane sits.
    pub layout: Layout,
    /// The pane with the keyboard.
    pub focused: usize,
}

/// What a saved tab holds.
#[verifier::ext_equal]
pub struct SavedModel {
    pub sessions: Seq<KindModel>,
    pub layout: Layout,
    pub focused: usize,
}

impl View for SavedTab {
    type V = SavedModel;

    open spec fn view(&self) -> SavedModel {
        SavedModel {
            sessions: kind_models(self.sessions@),
            layout: self.layout,
            focused: self.focused,
        }
    }
}

impl SavedTab {
    /// A copy of the tab.
    pub fn duplicate(&self) -> (out: SavedTab)
        ensures
            out@ == self@,
    {
        let n: usize = self.sessions.len();
        let mut sessions: Vec<SessionKind> = Vec::new();
        for i in 0..n
            invariant
                n == self.sessions@.len(),
                sessions@.len() == i,
                forall|k: int| 0 <= k < i ==> (#[trigger] sessions@[k])@ == self.sessions@[k]@,
        {
            sessions.push(self.sessions[i].clone());
        }
        assert(kind_models(sessions@) =~= kind_models(self.sessions@));
        SavedTab { sessions, layout: self.layout.duplicate(), focused: self.focused }
    }
}

/// What the saved tabs of a list hold.
pub open spec fn saved_models(list: Seq<SavedTab>) -> Seq<SavedModel> {
    list.map_values(|t: SavedTab| t@)
}

impl Layout {
    /// The panes of the layout, in the order they are drawn.
    pub open spec fn leaves(self) -> Seq<usize>
        decreases self,
    {
        match self {
            Layout::Leaf(index) => seq![index],
            Layout::Split { first, second, .. } => first.leaves() + second.leaves(),
        }
    }

    /// How often the pane `i` occurs.
    pub open spec fn occurs(self, i: int) -> nat
        decreases self,
    {
        match self {
            Layout::Leaf(index) => once(index == i),
            Layout::Split { first, second, .. } => first.occurs(i) + second.occurs(i),
        }
    }

    /// How many splits stand above the deepest pane.
    pub open spec fn depth(self) -> nat
        decreases self,
    {
        match self {
            Layout::Leaf(_) => 0,
            Layout::Split { first, second, .. } => 1 + if first.depth() > second.depth() {
                first.depth()
            } else {
                second.depth()
            },
        }
    }

    /// Whether every split leaves room for both of its halves.
    pub open spec fn ratios_inside(self) -> bool
        decreases self,
    {
        match self {
            Layout::Leaf(_) => true,
            Layout::Split { ratio, first, second, .. } => ratio.inside() && first.ratios_inside()
                && second.ratios_inside(),
        }
    }

    /// Whether each of the panes `0..count` occurs once, and no other.
    pub open spec fn arranges(self, count: int) -> bool {
        forall|i: int|
            #![trigger self.occurs(i)]
            self.occurs(i) == once(0 <= i < count)
    }

    /// Whether the layout can be drawn for a tab of `count` panes.
    pub open spec fn well_formed(self, count: int) -> bool {
        &&& self.depth() <= MAX_DEPTH
        &&& self.ratios_inside()
        &&& self.arranges(count)
    }

    /// The layout in which every pane `target` shares its area with `new`.
    pub open spec fn after_split(self, target: usize, new: usize, axis: Axis) -> Layout
        decreases self,
    {
        match self {
            Layout::Leaf(index) => if index == target {
                Layout::Split {
                    axis,
                    ratio: Single { bits: HALF },
                    first: Box::new(Layout::Leaf(target)),
                    second: Box::new(Layout::Leaf(new)),
                }
            } else {
                self
            },
            Layout::Split { axis: a, ratio, first, second } => Layout::Split {
                axis: a,
                ratio,
                first: Box::new(first.after_split(target, new, axis)),
                second: Box::new(second.after_split(target, new, axis)),
            },
        }
    }

    /// The layout without the pane `target`, whose place its neighbour takes.
    /// The panes after it move down by one.
    pub open spec fn after_remove(self, target: usize) -> Option<Layout>
        decreases self,
    {
        match self {
            Layout::Leaf(index) => if index == target {
                None
            } else if index > target {
                Some(Layout::Leaf((index - 1) as usize))
            } else {
                Some(self)
            },
            Layout::Split { axis, ratio, first, second } => match (
                first.after_remove(target),
                second.after_remove(target),
            ) {
                (Some(a), Some(b)) => Some(
                    Layout::Split { axis, ratio, first: Box::new(a), second: Box::new(b) },
                ),
                (Some(a), None) => Some(a),
                (None, b) => b,
            },
        }
    }

    /// A copy of the layout.
    pub fn duplicate(&self) -> (out: Layout)
        ensures
            out == *self,
        decreases self,
    {
        match self {
            Layout::Leaf(index) => Layout::Leaf(*index),
            Layout::Split { axis, ratio, first, second } => Layout::Split {
                axis: *axis,
                ratio: *ratio,
                first: Box::new(first.duplicate()),
                second: Box::new(second.duplicate()),
            },
        }
    }

    /// Splits the area of the pane `target`, giving its second half to `new`.
    pub fn split(&mut self, target: usize, new: usize, axis: Axis)
        ensures
            *final(self) == old(self).after_split(target, new, axis),
        decreases *old(self),
    {
        match self {
            Layout::Leaf(index) => {
                if *index == target {
                    *self = Layout::Split {
                        axis,
                        ratio: Single { bits: HALF },
                        first: Box::new(Layout::Leaf(target)),
                        second: Box::new(Layout::Leaf(new)),
                    };
                }
            },
            Layout::Split { first, second, .. } => {
                first.split(target, new, axis);
                second.split(target, new, axis);
            },
        }
    }

    /// Takes the pane `target` out. Nothing is left where it was the only one.
    pub fn remove(self, target: usize) -> (out: Option<Layout>)
        ensures
            out == self.after_remove(target),
        decreases self,
    {
        match self {
            Layout::Leaf(index) => {
                if index == target {
                    None
                } else if index > target {
                    Some(Layout::Leaf(index - 1))
                } else {
                    Some(Layout::Leaf(index))
                }
            },
            Layout::Split { axis, ratio, first, second } => {
                match ((*first).remove(target), (*second).remove(target)) {
                    (Some(a), Some(b)) => Some(
                        Layout::Split { axis, ratio, first: Box::new(a), second: Box::new(b) },
                    ),
                    (Some(a), None) => Some(a),
                    (None, b) => b,
                }
            },
        }
    }

    /// Appends the panes to `ids` and checks depth and ratios on the way.
    fn visit(&self, ids: &mut Vec<usize>, depth: usize) -> (ok: bool)
        ensures
            ok == (depth + self.depth() <= MAX_DEPTH && self.ratios_inside()),
            ok ==> final(ids)@ == old(ids)@ + self.leaves(),
        decreases self,
    {
        if depth > MAX_DEPTH {
            return false;
        }
        match self {
            Layout::Leaf(index) => {
                ids.push(*index);
                assert(ids@ =~= old(ids)@ + self.leaves());
                true
            },
            Layout::Split { ratio, first, second, .. } => {
                if !ratio.is_inside() {
                    return false;
                }
                if !first.visit(ids, depth + 1) {
                    return false;
                }
                if !second.visit(ids, depth + 1) {
                    return false;
                }
                assert(ids@ =~= old(ids)@ + self.leaves());
                true
            },
        }
    }

    /// Whether the layout can be drawn for a tab of `count` panes.
    pub fn valid(&self, count: usize) -> (yes: bool)
        ensures
            yes == self.well_formed(count as int),
    {
        let mut ids: Vec<usize> = Vec::new();
        if !self.visit(&mut ids, 0) {
            return false;
        }
        assert(ids@ =~= self.leaves());
        let mut seen: Vec<bool> = Vec::new();
        for k in 0..count
            invariant
                seen@.len() == k,
                forall|i: int| 0 <= i < k ==> !#[trigger] seen@[i],
        {
            seen.push(false);
        }
        let n: usize = ids.len();
        assert(ids@.take(0) =~= Seq::<usize>::empty());
        let mut k: usize = 0;
        while k < n
            invariant
                k <= n,
                n == ids@.len(),
                ids@ == self.leaves(),
                seen@.len() == count,
                forall|i: int|
                    #![trigger seen@[i]]
                    0 <= i < count ==> tally(ids@.take(k as int), i) == once(seen@[i]),
                forall|i: int|
                    #![trigger tally(ids@.take(k as int), i)]
                    !(0 <= i < count) ==> tally(ids@.take(k as int), i) == 0,
            decreases n - k,
        {
            let id: usize = ids[k];
            let ghost before = seen@;
            proof {
                assert(ids@.take(k + 1) =~= ids@.take(k as int).push(id));
                assert forall|i: int|
                    #![trigger tally(ids@.take(k + 1), i)]
                    tally(ids@.take(k + 1), i) == tally(ids@.take(k as int), i) + once(i == id) by {
                    lemma_tally_add(ids@.take(k as int), seq![id], i);
                    assert(ids@.take(k as int) + seq![id] =~= ids@.take(k as int).push(id));
                    lemma_tally_one(id, i);
                }
                if id >= count || seen@[id as int] {
                    let i = id as int;
                    assert(ids@.take(k + 1) + ids@.skip(k + 1) =~= ids@);
                    lemma_tally_add(ids@.take(k + 1), ids@.skip(k + 1), i);
                    lemma_tally_leaves(*self, i);
                    assert(tally(ids@.take(k + 1), i) >= 1);
                    assert(id < count ==> tally(ids@.take(k + 1), i) == 2);
                    assert(self.occurs(i) > once(0 <= i < count));
                }
            }
            if id >= count {
                return false;
            }
            if seen[id] {
                return false;
            }
            seen.set(id, true);
            proof {
                assert forall|i: int| 0 <= i < count implies tally(ids@.take(k + 1), i) == once(seen@[i]) by {
                    if i != id {
                        assert(seen@[i] == before[i]);
                    } else {
                        assert(!before[i]);
                    }
                }
                assert forall|i: int| !(0 <= i < count) implies #[trigger] tally(
                    ids@.take(k + 1),
                    i,
                ) == 0 by {
                    assert(tally(ids@.take(k as int), i) == 0);
                }
            }
            k += 1;
        }
        assert(ids@.take(n as int) =~= ids@);
        for k in 0..count
            invariant
                seen@.len() == count,
                ids@ == self.leaves(),
                forall|i: int|
                    #![trigger seen@[i]]
                    0 <= i < count ==> tally(ids@, i) == once(seen@[i]),
                forall|i: int|
                    #![trigger tally(ids@, i)]
                    !(0 <= i < count) ==> tally(ids@, i) == 0,
                forall|i: int| 0 <= i < k ==> #[trigger] seen@[i],
        {
            if !seen[k] {
                proof {
                    lemma_tally_leaves(*self, k as int);
                    assert(self.occurs(k as int) == 0);
                }
                return false;
            }
        }
        proof {
            assert forall|i: int|
                #![trigger self.occurs(i)]
                self.occurs(i) == once(0 <= i < count) by {
                lemma_tally_leaves(*self, i);
                if 0 <= i < count {
                    assert(seen@[i]);
                }
            }
        }
        true
    }
}

/// How often `i` stands in the list.
pub open spec fn tally(ids: Seq<usize>, i: int) -> nat
    decreases ids.len(),
{
    if ids.len() == 0 {
        0
    } else {
        tally(ids.drop_last(), i) + once(ids.last() == i)
    }
}

proof fn lemma_tally_one(id: usize, i: int)
    ensures
        tally(seq![id], i) == once(i == id),
{
    assert(seq![id].drop_last() =~= Seq::<usize>::empty());
    assert(tally(seq![id].drop_last(), i) == 0);
}

proof fn lemma_tally_add(a: Seq<usize>, b: Seq<usize>, i: int)
    ensures
        tally(a + b, i) == tally(a, i) + tally(b, i),
    decreases b.len(),
{
    if b.len() == 0 {
        assert(a + b =~= a);
    } else {
        assert((a + b).drop_last() =~= a + b.drop_last());
        lemma_tally_add(a, b.drop_last(), i);
    }
}

proof fn lemma_tally_leaves(layout: Layout, i: int)
    ensures
        tally(layout.leaves(), i) == layout.occurs(i),
    decreases layout,
{
    match layout {
        Layout::Leaf(index) => {
            lemma_tally_one(index, i);
        },
        Layout::Split { first, second, .. } => {
            lemma_tally_leaves(*first, i);
            lemma_tally_leaves(*second, i);
            lemma_tally_add(first.leaves(), second.leaves(), i);
        },
    }
}

proof fn lemma_split_occurs(layout: Layout, target: usize, new: usize, axis: Axis, i: int)
    ensures
        layout.after_split(target, new, axis).occurs(i) == layout.occurs(i) + (if i == new {
            layout.occurs(target as int)
        } else {
            0nat
        }),
    decreases layout,
{
    match layout {
        Layout::Leaf(index) => {
            reveal_with_fuel(Layout::occurs, 2);
        },
        Layout::Split { first, second, .. } => {
            lemma_split_occurs(*first, target, new, axis, i);
            lemma_split_occurs(*second, target, new, axis, i);
        },
    }
}

proof fn lemma_split_shape(layout: Layout, target: usize, new: usize, axis: Axis)
    requires
        layout.ratios_inside(),
    ensures
        layout.after_split(target, new, axis).ratios_inside(),
        layout.after_split(target, new, axis).depth() <= layout.depth() + 1,
    decreases layout,
{
    match layout {
        Layout::Leaf(index) => {
            reveal_with_fuel(Layout::ratios_inside, 2);
            reveal_with_fuel(Layout::depth, 2);
        },
        Layout::Split { first, second, .. } => {
            lemma_split_shape(*first, target, new, axis);
            lemma_split_shape(*second, target, new, axis);
        },
    }
}

/// A tree is less deep than it has leaves.
proof fn lemma_depth_below_leaves(layout: Layout)
    ensures
        layout.depth() < layout.leaves().len(),
    decreases layout,
{
    match layout {
        Layout::Leaf(_) => {},
        Layout::Split { first, second, .. } => {
            lemma_depth_below_leaves(*first);
            lemma_depth_below_leaves(*second);
        },
    }
}

/// A list in which only indexes below `count` occur, each at most once, is at
/// most `count` long.
proof fn lemma_tally_bounds_len(ids: Seq<usize>, count: nat)
    requires
        forall|i: int| 0 <= i < count ==> #[trigger] tally(ids, i) <= 1,
        forall|i: int| !(0 <= i < count) ==> #[trigger] tally(ids, i) == 0,
    ensures
        ids.len() <= count,
    decreases count,
{
    if count == 0 {
        if ids.len() > 0 {
            assert(tally(ids, ids.last() as int) >= 1);
        }
    } else {
        let top = (count - 1) as int;
        if exists|k: int| 0 <= k < ids.len() && ids[k] == top {
            let k = choose|k: int| 0 <= k < ids.len() && ids[k] == top;
            let rest = ids.take(k) + ids.skip(k + 1);
            assert forall|i: int|
                #![trigger tally(rest, i)]
                tally(rest, i) == tally(ids, i) - once(i == top) by {
                lemma_tally_add(ids.take(k), ids.skip(k + 1), i);
                lemma_tally_add(ids.take(k + 1), ids.skip(k + 1), i);
                assert(ids.take(k + 1) + ids.skip(k + 1) =~= ids);
                assert(ids.take(k + 1).drop_last() =~= ids.take(k));
            }
            assert forall|i: int| 0 <= i < count - 1 implies #[trigger] tally(rest, i) <= 1 by {
                assert(tally(ids, i) <= 1);
            }
            assert forall|i: int| !(0 <= i < count - 1) implies #[trigger] tally(rest, i)
                == 0 by {
                if i == top {
                    assert(tally(ids, i) <= 1);
                } else {
                    assert(tally(ids, i) == 0);
                }
            }
            lemma_tally_bounds_len(rest, (count - 1) as nat);
        } else {
            lemma_tally_absent(ids, top);
            lemma_tally_bounds_len(ids, (count - 1) as nat);
        }
    }
}

proof fn lemma_tally_absent(ids: Seq<usize>, i: int)
    requires
        forall|k: int| 0 <= k < ids.len() ==> ids[k] != i,
    ensures
        tally(ids, i) == 0,
    decreases ids.len(),
{
    if ids.len() > 0 {
        lemma_tally_absent(ids.drop_last(), i);
    }
}

/// A layout of `count` panes is less than `count` splits deep.
proof fn lemma_depth_below_count(layout: Layout, count: nat)
    requires
        layout.arranges(count as int),
    ensures
        layout.depth() < count,
{
    lemma_depth_below_leaves(layout);
    assert forall|i: int| 0 <= i < count implies #[trigger] tally(layout.leaves(), i) <= 1 by {
        lemma_tally_leaves(layout, i);
        assert(layout.occurs(i) == 1);
    }
    assert forall|i: int| !(0 <= i < count) implies #[trigger] tally(layout.leaves(), i) == 0 by {
        lemma_tally_leaves(layout, i);
        assert(layout.occurs(i) == 0);
    }
    lemma_tally_bounds_len(layout.leaves(), count);
}

proof fn lemma_remove_occurs(layout: Layout, target: usize, i: int)
    requires
        i >= 0,
    ensures
        match layout.after_remove(target) {
            Some(rest) => rest.occurs(i) == layout.occurs(if i < target {
                i
            } else {
                i + 1
            }),
            None => layout.occurs(if i < target {
                i
            } else {
                i + 1
            }) == 0,
        },
    decreases layout,
{
    match layout {
        Layout::Leaf(index) => {},
        Layout::Split { first, second, .. } => {
            lemma_remove_occurs(*first, target, i);
            lemma_remove_occurs(*second, target, i);
        },
    }
}

proof fn lemma_occurs_negative(layout: Layout, i: int)
    requires
        i < 0,
    ensures
        layout.occurs(i) == 0,
    decreases layout,
{
    match layout {
        Layout::Leaf(_) => {},
        Layout::Split { first, second, .. } => {
            lemma_occurs_negative(*first, i);
            lemma_occurs_negative(*second, i);
        },
    }
}

proof fn lemma_remove_shape(layout: Layout, target: usize)
    requires
        layout.ratios_inside(),
    ensures
        match layout.after_remove(target) {
            Some(rest) => rest.ratios_inside() && rest.depth() <= layout.depth(),
            None => true,
        },
    decreases layout,
{
    match layout {
        Layout::Leaf(_) => {},
        Layout::Split { first, second, .. } => {
            lemma_remove_shape(*first, target);
            lemma_remove_shape(*second, target);
        },
    }
}

/// Splitting a pane of a valid layout for up to 32 panes, with the next free
/// index as the new pane, gives a valid layout for one pane more.
pub proof fn law_split_keeps_layouts_valid(
    layout: Layout,
    count: nat,
    target: usize,
    new: usize,
    axis: Axis,
)
    requires
        layout.well_formed(count as int),
        count <= MAX_DEPTH,
        target < count,
        new == count,
    ensures
        layout.after_split(target, new, axis).well_formed(count as int + 1),
{
    let after = layout.after_split(target, new, axis);
    lemma_split_shape(layout, target, new, axis);
    lemma_depth_below_count(layout, count);
    assert(layout.occurs(target as int) == 1);
    assert forall|i: int|
                #![trigger after.occurs(i)]
                after.occurs(i) == once(0 <= i < count + 1) by {
        lemma_split_occurs(layout, target, new, axis, i);
        assert(layout.occurs(i) == once(0 <= i < count));
    }
}

/// Closing a pane of a valid layout leaves a valid layout for one pane less,
/// and nothing only where it was the last one.
pub proof fn law_remove_keeps_layouts_valid(layout: Layout, count: nat, target: usize)
    requires
        layout.well_formed(count as int),
        target < count,
    ensures
        layout.after_remove(target) is None <==> count == 1,
        layout.after_remove(target) matches Some(rest) ==> rest.well_formed(count - 1),
{
    lemma_remove_shape(layout, target);
    match layout.after_remove(target) {
        Some(rest) => {
            assert forall|i: int|
                #![trigger rest.occurs(i)]
                rest.occurs(i) == once(0 <= i < count - 1) by {
                if i >= 0 {
                    lemma_remove_occurs(layout, target, i);
                    let j = if i < target {
                        i
                    } else {
                        i + 1
                    };
                    assert(layout.occurs(j) == once(0 <= j < count));
                } else {
                    lemma_occurs_negative(rest, i);
                }
            }
            if count == 1 {
                lemma_depth_below_count(rest, 0);
            }
        },
        None => {
            if count > 1 {
                lemma_remove_occurs(layout, target, 0);
                let j = if 0 < target {
                    0int
                } else {
                    1int
                };
                assert(layout.occurs(j) == 1);
            }
        },
    }
}

/// Closing the pane that a split has just made gives the layout back, whatever
/// pane was split: all it takes is that the new one stands behind every other.
pub proof fn law_remove_undoes_split(layout: Layout, target: usize, new: usize, axis: Axis)
    requires
        forall|i: int| i >= new ==> #[trigger] layout.occurs(i) == 0,
    ensures
        layout.after_split(target, new, axis).after_remove(new) == Some(layout),
    decreases layout,
{
    match layout {
        Layout::Leaf(index) => {
            if index >= new {
                assert(layout.occurs(index as int) == 1);
            }
            reveal_with_fuel(Layout::after_remove, 2);
        },
        Layout::Split { first, second, .. } => {
            assert forall|i: int| i >= new implies #[trigger] first.occurs(i) == 0 by {
                assert(layout.occurs(i) == 0);
            }
            assert forall|i: int| i >= new implies #[trigger] second.occurs(i) == 0 by {
                assert(layout.occurs(i) == 0);
            }
            law_remove_undoes_split(*first, target, new, axis);
            law_remove_undoes_split(*second, target, new, axis);
        },
    }
}

/// What stands at the end of a path through the splits: at each split the path
/// goes to the second half where it says so, else to the first.
pub open spec fn at_path(layout: Layout, path: Seq<bool>) -> Option<Layout>
    decreases path.len(),
{
    if path.len() == 0 {
        Some(layout)
    } else {
        match layout {
            Layout::Leaf(_) => None,
            Layout::Split { first, second, .. } => at_path(
                if path[0] {
                    *second
                } else {
                    *first
                },
                path.skip(1),
            ),
        }
    }
}

/// What a split does, wherever one looks: where the pane stood, the area is now
/// divided along the axis that was asked for, in two halves of the same size, with
/// the pane that was there in the first and the new one in the second. Every other
/// pane stays, and every other split keeps its axis and its ratio.
pub proof fn law_a_split_divides_its_pane_alone(
    layout: Layout,
    target: usize,
    new: usize,
    axis: Axis,
    path: Seq<bool>,
)
    requires
        at_path(layout, path) is Some,
    ensures
        match at_path(layout, path)->0 {
            Layout::Leaf(i) => at_path(layout.after_split(target, new, axis), path) == Some(
                if i == target {
                    Layout::Split {
                        axis,
                        ratio: Single { bits: 0x3f00_0000 },
                        first: Box::new(Layout::Leaf(i)),
                        second: Box::new(Layout::Leaf(new)),
                    }
                } else {
                    Layout::Leaf(i)
                },
            ),
            Layout::Split { axis: a, ratio: r, .. } => at_path(
                layout.after_split(target, new, axis),
                path,
            ) matches Some(Layout::Split { axis: b, ratio: q, .. }) && a == b && r == q,
        },
    decreases path.len(),
{
    if path.len() > 0 {
        if let Layout::Split { first, second, .. } = layout {
            let half = if path[0] {
                *second
            } else {
                *first
            };
            law_a_split_divides_its_pane_alone(half, target, new, axis, path.skip(1));
        }
    }
}

/// The property of being another index.
pub open spec fn another(target: usize) -> spec_fn(usize) -> bool {
    |i: usize| i != target
}

/// The indices without one of them, and those above it one lower.
pub open spec fn moved_down(list: Seq<usize>, target: usize) -> Seq<usize> {
    list.filter(another(target)).map_values(
        |i: usize|
            if i > target {
                (i - 1) as usize
            } else {
                i
            },
    )
}

proof fn lemma_moved_down_joins(a: Seq<usize>, b: Seq<usize>, target: usize)
    ensures
        moved_down(a + b, target) == moved_down(a, target) + moved_down(b, target),
{
    let p = another(target);
    Seq::filter_distributes_over_add(a, b, p);
    assert(moved_down(a + b, target) =~= moved_down(a, target) + moved_down(b, target));
}

/// The panes of a layout, in the order in which they are drawn: splitting puts the
/// new pane right behind the one that was split, and closing takes a pane out and
/// moves the ones above it down, without changing the order of any.
pub proof fn law_panes_keep_their_order(layout: Layout, target: usize, new: usize, axis: Axis)
    ensures
        match layout.after_remove(target) {
            Some(rest) => rest.leaves() == moved_down(layout.leaves(), target),
            None => moved_down(layout.leaves(), target).len() == 0,
        },
        layout.after_split(target, new, axis).leaves() == layout.leaves().map_values(
            |i: usize|
                if i == target {
                    seq![i, new]
                } else {
                    seq![i]
                },
        ).flatten(),
    decreases layout,
{
    let each = |i: usize|
        if i == target {
            seq![i, new]
        } else {
            seq![i]
        };
    match layout {
        Layout::Leaf(i) => {
            reveal(Seq::filter);
            let one = seq![i];
            assert(one.drop_last() =~= Seq::<usize>::empty());
            assert(one.last() == i);
            let p = another(target);
            assert(one.drop_last().filter(p) =~= Seq::<usize>::empty());
            assert(one.filter(p) =~= (if i == target {
                Seq::<usize>::empty()
            } else {
                one
            }));
            match layout.after_remove(target) {
                Some(rest) => {
                    assert(rest.leaves() =~= moved_down(layout.leaves(), target));
                },
                None => {
                    assert(layout.leaves() =~= one);
                    assert(one.filter(p).len() == 0);
                    assert(moved_down(one, target) =~= Seq::<usize>::empty());
                },
            }
            reveal_with_fuel(Layout::leaves, 2);
            let split = layout.leaves().map_values(each);
            assert(split =~= seq![each(i)]);
            split.lemma_flatten_one_element();
            assert(layout.after_split(target, new, axis).leaves() =~= each(i));
        },
        Layout::Split { first, second, .. } => {
            law_panes_keep_their_order(*first, target, new, axis);
            law_panes_keep_their_order(*second, target, new, axis);
            lemma_moved_down_joins(first.leaves(), second.leaves(), target);
            let a = first.leaves().map_values(each);
            let b = second.leaves().map_values(each);
            vstd::seq_lib::lemma_flatten_concat(a, b);
            assert(layout.leaves().map_values(each) =~= a + b);
            match (first.after_remove(target), second.after_remove(target)) {
                (Some(x), Some(y)) => {},
                (Some(x), None) => {
                    assert(x.leaves() + moved_down(second.leaves(), target) =~= x.leaves());
                },
                (None, Some(y)) => {
                    assert(moved_down(first.leaves(), target) + y.leaves() =~= y.leaves());
                },
                (None, None) => {},
            }
        },
    }
}

/// A layout that does not show a pane keeps every split when that pane is closed:
/// what stands at a path has the axis and the ratio that it had, and only the
/// indices above move down.
pub proof fn law_closing_elsewhere_keeps_the_splits(
    layout: Layout,
    target: usize,
    path: Seq<bool>,
)
    requires
        layout.occurs(target as int) == 0,
        at_path(layout, path) is Some,
    ensures
        layout.after_remove(target) is Some,
        match at_path(layout, path)->0 {
            Layout::Leaf(i) => at_path(layout.after_remove(target)->0, path) == Some(
                Layout::Leaf(
                    if i > target {
                        (i - 1) as usize
                    } else {
                        i
                    },
                ),
            ),
            Layout::Split { axis: a, ratio: r, .. } => at_path(
                layout.after_remove(target)->0,
                path,
            ) matches Some(Layout::Split { axis: b, ratio: q, .. }) && a == b && r == q,
        },
    decreases layout,
{
    match layout {
        Layout::Leaf(_) => {},
        Layout::Split { first, second, .. } => {
            assert(at_path(*first, Seq::empty()) is Some);
            assert(at_path(*second, Seq::empty()) is Some);
            law_closing_elsewhere_keeps_the_splits(*first, target, Seq::empty());
            law_closing_elsewhere_keeps_the_splits(*second, target, Seq::empty());
            if path.len() > 0 {
                let half = if path[0] {
                    *second
                } else {
                    *first
                };
                law_closing_elsewhere_keeps_the_splits(half, target, path.skip(1));
            }
        },
    }
}

/// Closing one half of a split gives its whole area to the other half; closing a
/// pane deeper inside leaves the split above it with its axis, its ratio and its
/// other half.
pub proof fn law_the_neighbour_takes_the_area(
    axis: Axis,
    ratio: Single,
    half: Layout,
    other: Layout,
    target: usize,
)
    requires
        other.occurs(target as int) == 0,
    ensures
        ({
            let stays = other.after_remove(target);
            let left = Layout::Split {
                axis,
                ratio,
                first: Box::new(half),
                second: Box::new(other),
            };
            let right = Layout::Split {
                axis,
                ratio,
                first: Box::new(other),
                second: Box::new(half),
            };
            &&& stays is Some
            &&& half == Layout::Leaf(target) ==> left.after_remove(target) == stays
                && right.after_remove(target) == stays
            &&& half.after_remove(target) matches Some(rest) ==> left.after_remove(target) == Some(
                Layout::Split { axis, ratio, first: Box::new(rest), second: Box::new(stays->0) },
            ) && right.after_remove(target) == Some(
                Layout::Split { axis, ratio, first: Box::new(stays->0), second: Box::new(rest) },
            )
        }),
{
    assert(at_path(other, Seq::empty()) is Some);
    law_closing_elsewhere_keeps_the_splits(other, target, Seq::empty());
    reveal_with_fuel(Layout::after_remove, 2);
}

/// A layout can be drawn for a tab exactly where its panes are the numbers from
/// zero on, each once, no more than 32 splits stand above one another, and every
/// ratio lies strictly between zero and one.
pub proof fn law_what_can_be_drawn(layout: Layout, count: int, path: Seq<bool>)
    requires
        layout.well_formed(count),
        at_path(layout, path) is Some,
    ensures
        path.len() <= 32,
        at_path(layout, path)->0 matches Layout::Leaf(i) ==> i < count,
        at_path(layout, path)->0 matches Layout::Split { ratio, .. } ==> 0 < ratio.bits
            < 0x3f80_0000,
{
    lemma_at_path(layout, path);
    if let Layout::Leaf(i) = at_path(layout, path)->0 {
        assert(at_path(layout, path)->0.occurs(i as int) == 1);
        assert(layout.occurs(i as int) >= 1);
        assert(layout.occurs(i as int) == once(0 <= i < count));
    }
}

proof fn lemma_at_path(layout: Layout, path: Seq<bool>)
    requires
        at_path(layout, path) is Some,
        layout.ratios_inside(),
    ensures
        path.len() <= layout.depth(),
        at_path(layout, path)->0.ratios_inside(),
        forall|i: int| #[trigger] at_path(layout, path)->0.occurs(i) <= layout.occurs(i),
    decreases path.len(),
{
    if path.len() > 0 {
        if let Layout::Split { first, second, .. } = layout {
            let half = if path[0] {
                *second
            } else {
                *first
            };
            lemma_at_path(half, path.skip(1));
        }
    }
}

/// A layout that keeps within those bounds is accepted: none of its splits stands
/// below more than 31 others, its ratios leave room for both halves, and its panes
/// are the numbers from zero on, each once.
pub proof fn law_drawable_layouts_are_accepted(layout: Layout, count: nat)
    requires
        forall|path: Seq<bool>|
            (#[trigger] at_path(layout, path)) is Some ==> path.len() <= 32 && (at_path(
                layout,
                path,
            )->0 matches Layout::Split { ratio, .. } ==> 0 < ratio.bits < 0x3f80_0000),
        layout.leaves().no_duplicates(),
        forall|i: usize| #[trigger] layout.leaves().contains(i) <==> i < count,
        count <= usize::MAX,
    ensures
        layout.well_formed(count as int),
{
    let deepest = lemma_deepest(layout);
    assert(at_path(layout, deepest) is Some);
    lemma_ratios_from_paths(layout);
    assert forall|i: int|
        #![trigger layout.occurs(i)]
        layout.occurs(i) == once(0 <= i < count) by {
        lemma_tally_leaves(layout, i);
        let ids = layout.leaves();
        if 0 <= i < count {
            let id = i as usize;
            assert(ids.contains(id));
            lemma_tally_single(ids, id);
        } else {
            assert forall|k: int| 0 <= k < ids.len() implies ids[k] != i by {
                assert(ids.contains(ids[k]));
            }
            lemma_tally_absent(ids, i);
        }
    }
}

proof fn lemma_tally_single(ids: Seq<usize>, id: usize)
    requires
        ids.no_duplicates(),
        ids.contains(id),
    ensures
        tally(ids, id as int) == 1,
    decreases ids.len(),
{
    let rest = ids.drop_last();
    let k = choose|k: int| 0 <= k < ids.len() && ids[k] == id;
    if k == ids.len() - 1 {
        assert forall|j: int| 0 <= j < rest.len() implies rest[j] != id as int by {
            assert(ids[j] != ids[k]);
        }
        lemma_tally_absent(rest, id as int);
    } else {
        assert(rest[k] == id);
        lemma_tally_single(rest, id);
        assert(ids[k] != ids[ids.len() - 1]);
    }
}

proof fn lemma_deepest(layout: Layout) -> (path: Seq<bool>)
    ensures
        at_path(layout, path) is Some,
        path.len() == layout.depth(),
    decreases layout,
{
    match layout {
        Layout::Leaf(_) => Seq::empty(),
        Layout::Split { first, second, .. } => {
            let a = lemma_deepest(*first);
            let b = lemma_deepest(*second);
            assert((seq![false] + a).skip(1) =~= a);
            assert((seq![true] + b).skip(1) =~= b);
            if first.depth() > second.depth() {
                seq![false] + a
            } else {
                seq![true] + b
            }
        },
    }
}

proof fn lemma_ratios_from_paths(layout: Layout)
    requires
        forall|path: Seq<bool>|
            (#[trigger] at_path(layout, path)) is Some ==> (at_path(
                layout,
                path,
            )->0 matches Layout::Split { ratio, .. } ==> 0 < ratio.bits < 0x3f80_0000),
    ensures
        layout.ratios_inside(),
    decreases layout,
{
    if let Layout::Split { first, second, .. } = layout {
        assert(at_path(layout, Seq::empty()) is Some);
        assert forall|path: Seq<bool>| (#[trigger] at_path(*first, path)) is Some implies (at_path(
            *first,
            path,
        )->0 matches Layout::Split { ratio, .. } ==> 0 < ratio.bits < 0x3f80_0000) by {
            let longer = seq![false] + path;
            assert(longer.skip(1) =~= path);
            assert(at_path(layout, longer) == at_path(*first, path));
        }
        assert forall|path: Seq<bool>| (#[trigger] at_path(*second, path)) is Some implies (at_path(
            *second,
            path,
        )->0 matches Layout::Split { ratio, .. } ==> 0 < ratio.bits < 0x3f80_0000) by {
            let longer = seq![true] + path;
            assert(longer.skip(1) =~= path);
            assert(at_path(layout, longer) == at_path(*second, path));
        }
        lemma_ratios_from_paths(*first);
        lemma_ratios_from_paths(*second);
    }
}

/// The model of a saved tab holds what each of its panes runs, its layout and its focus.
pub proof fn law_models_hold_the_saved_tab(t: SavedTab, list: Seq<SavedTab>, i: int)
    ensures
        t@.sessions.len() == t.sessions@.len(),
        0 <= i < t.sessions@.len() ==> t@.sessions[i] == t.sessions@[i]@,
        t@.layout == t.layout && t@.focused == t.focused,
        saved_models(list).len() == list.len(),
        0 <= i < list.len() ==> saved_models(list)[i] == list[i]@,
{
}

/// A number is brought between two bounds: one below, or a negative one, to the lower, one
/// above to the upper, and one between them stays. What is no number stays as well.
pub proof fn law_numbers_are_brought_between_bounds(x: Single, low: u32, high: u32)
    requires
        low <= high < 0x7f80_0000,
    ensures
        ({
            let nan = 0x7f80_0000 < x.bits < 0x8000_0000 || x.bits > 0xff80_0000;
            let y = x.within(low, high);
            &&& nan ==> y == x
            &&& !nan && x.bits >= 0x8000_0000 ==> y.bits == low
            &&& !nan && x.bits < low ==> y.bits == low
            &&& low <= x.bits <= high ==> y == x
            &&& high < x.bits <= 0x7f80_0000 ==> y.bits == high
        }),
        x.inside() <==> 0 < x.bits < 0x3f80_0000,
{
}

} // verus!
