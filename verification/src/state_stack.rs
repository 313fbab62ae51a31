//! The canvas's stack of saved drawing states: `save`/`restore` pairing,
//! layers that share the stack, the clips each level owns, and the depth
//! limit past which the canvas saturates.
use vstd::prelude::*;

verus! {

/// The deepest the state stack goes. Past it the canvas saturates: a `save`
/// or a layer becomes one entry that its `restore` or layer end pairs with,
/// nothing draws until the last of those entries pops, and the changes made
/// to the state meanwhile are discarded.
pub const MAX_STATE_DEPTH: usize = 16384;

/// What a `restore` did.
#[derive(Copy, Clone, Debug, PartialEq, Eq, Structural)]
pub enum Restored {
    /// It paired with a save or layer past the depth limit.
    PastLimit,
    /// The top level was an open layer's own entry: the restore closed that
    /// layer exactly as [`StateStack::end_layer`] does.
    ClosedLayer,
    /// Only the base level is left: an unmatched restore, ignored.
    AtBase,
    /// The top level was popped, with the clips it owned.
    Popped,
}

/// What a layer end did.
#[derive(Copy, Clone, Debug, PartialEq, Eq, Structural)]
pub enum LayerEnded {
    /// It closed a layer taken past the depth limit, with the saves left
    /// open inside it; nothing was drawn for it.
    PastLimit,
    /// No layer was open; nothing changed.
    NoLayer,
    /// The innermost open layer closed: the stack is back to the level the
    /// layer began on, whose saved state is current again.
    Closed,
}

/// How many of `removed` lie below `depth`.
pub open spec fn count_below(removed: Seq<usize>, depth: int) -> nat
    decreases removed.len(),
{
    if removed.len() == 0 {
        0
    } else {
        count_below(removed.drop_last(), depth) + if removed.last() < depth {
            1nat
        } else {
            0nat
        }
    }
}

/// Each element is larger than the ones before it.
pub open spec fn strictly_increasing(s: Seq<usize>) -> bool {
    forall|i: int, j: int| 0 <= i < j < s.len() ==> #[trigger] s[i] < #[trigger] s[j]
}

proof fn lemma_count_all_below(s: Seq<usize>, depth: int)
    requires
        forall|i: int| 0 <= i < s.len() ==> #[trigger] s[i] < depth,
    ensures
        count_below(s, depth) == s.len(),
    decreases s.len(),
{
    if s.len() > 0 {
        lemma_count_all_below(s.drop_last(), depth);
    }
}

proof fn lemma_increasing_len(s: Seq<usize>)
    requires
        strictly_increasing(s),
        s.len() > 0,
    ensures
        s.len() <= s.last() + 1,
    decreases s.len(),
{
    if s.len() > 1 {
        let t = s.drop_last();
        assert(t[t.len() - 1] < s.last());
        lemma_increasing_len(t);
    }
}

proof fn lemma_count_below_at_most(s: Seq<usize>, depth: int)
    requires
        strictly_increasing(s),
        depth >= 0,
    ensures
        count_below(s, depth) <= depth,
    decreases s.len(),
{
    if s.len() > 0 {
        if s.last() < depth {
            lemma_count_all_below(s, depth);
            lemma_increasing_len(s);
        } else {
            lemma_count_below_at_most(s.drop_last(), depth);
        }
    }
}

/// Between `lo` and `hi` lie at most `hi - lo` distinct depths.
proof fn lemma_count_below_gap(s: Seq<usize>, lo: int, hi: int)
    requires
        strictly_increasing(s),
        lo <= hi,
    ensures
        count_below(s, lo) <= count_below(s, hi),
        count_below(s, hi) - count_below(s, lo) <= hi - lo,
    decreases s.len(),
{
    if s.len() > 0 {
        let t = s.drop_last();
        let x = s.last() as int;
        if lo <= x && x < hi {
            assert(forall|i: int| 0 <= i < t.len() ==> #[trigger] t[i] < x);
            lemma_count_all_below(t, x);
            lemma_count_all_below(t, hi);
            lemma_count_below_gap(t, lo, x);
        } else {
            lemma_count_below_gap(t, lo, hi);
        }
    }
}

/// The position of the innermost layer among the entries past the depth
/// limit, or -1 when all of them are saves.
pub open spec fn last_layer_entry(overflow: Seq<bool>) -> int
    decreases overflow.len(),
{
    if overflow.len() == 0 {
        -1
    } else if overflow.last() {
        overflow.len() - 1
    } else {
        last_layer_entry(overflow.drop_last())
    }
}

proof fn lemma_last_layer_entry(overflow: Seq<bool>, b: int)
    requires
        -1 <= b < overflow.len(),
        b >= 0 ==> overflow[b],
        forall|k: int| b < k < overflow.len() ==> !#[trigger] overflow[k],
    ensures
        last_layer_entry(overflow) == b,
    decreases overflow.len(),
{
    if overflow.len() > 0 && b < overflow.len() - 1 {
        let t = overflow.drop_last();
        assert forall|k: int| b < k < t.len() implies !#[trigger] t[k] by {
            assert(t[k] == overflow[k]);
        }
        lemma_last_layer_entry(t, b);
    }
}

/// The state stack as the proofs see it.
#[verifier::ext_equal]
pub struct StackView<S> {
    /// The levels, innermost last: each a state and its clip depth.
    pub levels: Seq<(S, usize)>,
    /// The saves (`false`) and layers (`true`) past the depth limit, innermost last.
    pub overflow: Seq<bool>,
    /// The deepest level as it was when saturation began.
    pub saved_at_limit: Option<(S, usize)>,
    /// The stack depth of each open layer's own entry, innermost last.
    pub layers: Seq<usize>,
    /// The number of clips in force.
    pub clips: usize,
}

impl<S> StackView<S> {
    /// The innermost level.
    pub open spec fn top(self) -> (S, usize) {
        self.levels.last()
    }

    /// Whether the stack is past the depth limit.
    pub open spec fn is_saturated(self) -> bool {
        self.overflow.len() > 0
    }

    /// Whether a save or layer taken now lies past the depth limit.
    pub open spec fn at_limit(self) -> bool {
        self.is_saturated() || self.levels.len() >= MAX_STATE_DEPTH
    }

    /// Between one and `MAX_STATE_DEPTH` levels, exactly `MAX_STATE_DEPTH`
    /// while saturated (with the level saved when saturation began), and open
    /// layers whose entries lie inside the stack above the base level, each
    /// deeper than the layer enclosing it.
    pub open spec fn wf(self) -> bool {
        &&& 1 <= self.levels.len() <= MAX_STATE_DEPTH
        &&& self.is_saturated() ==> self.levels.len() == MAX_STATE_DEPTH && self.saved_at_limit is Some
        &&& forall|k: int|
            0 <= k < self.layers.len() ==> 2 <= #[trigger] self.layers[k] && self.layers[k] <= self.levels.len()
        &&& forall|k: int, l: int|
            0 <= k < l < self.layers.len() ==> #[trigger] self.layers[k] < #[trigger] self.layers[l]
    }

    /// The clip bookkeeping agrees with the stack: clip depths never
    /// decrease inward, the current level holds every clip in force, and
    /// while saturated so does the level saved when saturation began.
    pub open spec fn consistent(self) -> bool {
        &&& self.wf()
        &&& forall|i: int, j: int|
            0 <= i <= j < self.levels.len() ==> #[trigger] self.levels[i].1 <= #[trigger] self.levels[j].1
        &&& self.top().1 == self.clips
        &&& self.is_saturated() ==> (self.saved_at_limit->0).1 == self.clips
    }

    /// An entry past the depth limit recorded; the first saves the deepest level.
    pub open spec fn with_entry(self, layer: bool) -> Self {
        StackView {
            overflow: self.overflow.push(layer),
            saved_at_limit: if self.is_saturated() {
                self.saved_at_limit
            } else {
                Some(self.top())
            },
            ..self
        }
    }

    /// The first `count` entries past the depth limit kept; with none left,
    /// the level saved when saturation began is back.
    pub open spec fn keep_entries(self, count: int) -> Self {
        StackView {
            levels: if count == 0 {
                self.levels.update(self.levels.len() - 1, self.saved_at_limit->0)
            } else {
                self.levels
            },
            overflow: self.overflow.take(count),
            ..self
        }
    }

    /// The first `n` levels kept, and the clips past the new top's depth dropped.
    pub open spec fn cut_to(self, n: int) -> Self {
        let levels = self.levels.take(n);
        StackView {
            levels,
            clips: if self.clips <= levels.last().1 {
                self.clips
            } else {
                levels.last().1
            },
            ..self
        }
    }

    /// Back to the level a layer with its entry at `depth` began on, with
    /// every entry past the depth limit gone.
    pub open spec fn unwind_to(self, depth: int) -> Self {
        StackView { overflow: Seq::empty(), ..self }.cut_to(depth - 1)
    }

    /// `state` made current, at the current clip depth.
    pub open spec fn after_set_state(self, state: S) -> Self {
        StackView { levels: self.levels.update(self.levels.len() - 1, (state, self.top().1)), ..self }
    }

    /// A save: a copy of the current level on top, or an entry past the limit.
    pub open spec fn after_save(self) -> Self {
        if self.at_limit() {
            self.with_entry(false)
        } else {
            StackView { levels: self.levels.push(self.top()), ..self }
        }
    }

    /// What a restore does.
    pub open spec fn restore_outcome(self) -> Restored {
        if self.is_saturated() {
            Restored::PastLimit
        } else if self.layers.len() > 0 && self.layers.last() == self.levels.len() {
            Restored::ClosedLayer
        } else if self.levels.len() == 1 {
            Restored::AtBase
        } else {
            Restored::Popped
        }
    }

    /// A restore.
    pub open spec fn after_restore(self) -> Self {
        match self.restore_outcome() {
            Restored::PastLimit => self.keep_entries(self.overflow.len() - 1),
            Restored::ClosedLayer => self.after_end_layer(),
            Restored::Popped => self.cut_to(self.levels.len() - 1),
            Restored::AtBase => self,
        }
    }

    /// A layer opened: a save whose depth the layer records, or an entry past the limit.
    pub open spec fn after_begin_layer(self) -> Self {
        if self.at_limit() {
            self.with_entry(true)
        } else {
            StackView {
                levels: self.levels.push(self.top()),
                layers: self.layers.push((self.levels.len() + 1) as usize),
                ..self
            }
        }
    }

    /// What a layer end does.
    pub open spec fn end_layer_outcome(self) -> LayerEnded {
        if last_layer_entry(self.overflow) >= 0 {
            LayerEnded::PastLimit
        } else if self.layers.len() == 0 {
            LayerEnded::NoLayer
        } else {
            LayerEnded::Closed
        }
    }

    /// The innermost open layer closed.
    pub open spec fn close_innermost_layer(self) -> Self {
        StackView { layers: self.layers.drop_last(), ..self }.unwind_to(self.layers.last() as int)
    }

    /// A layer end.
    pub open spec fn after_end_layer(self) -> Self {
        match self.end_layer_outcome() {
            LayerEnded::PastLimit => self.keep_entries(last_layer_entry(self.overflow)),
            LayerEnded::NoLayer => self,
            LayerEnded::Closed => self.close_innermost_layer(),
        }
    }

    /// Every open layer closed, innermost first.
    pub open spec fn after_discard_layers(self) -> Self
        decreases self.layers.len(),
    {
        if self.layers.len() == 0 {
            self
        } else {
            self.close_innermost_layer().after_discard_layers()
        }
    }

    /// A reset to `fresh`: the entries past the limit and the open layers
    /// go, then the current level takes `fresh` at the clip depth it
    /// inherited, dropping the clips it added.
    pub open spec fn after_reset(self, fresh: S) -> Self {
        let d = StackView { overflow: Seq::empty(), ..self }.after_discard_layers();
        let n = d.levels.len();
        let inherited = if n >= 2 {
            d.levels[n - 2].1
        } else {
            0usize
        };
        StackView {
            levels: d.levels.update(n - 1, (fresh, inherited)),
            clips: if d.clips <= inherited {
                d.clips
            } else {
                inherited
            },
            ..d
        }
    }

    /// A clip taken at the current level; past the limit nothing is recorded.
    pub open spec fn after_push_clip(self) -> Self {
        if self.is_saturated() {
            self
        } else {
            StackView {
                levels: self.levels.update(self.levels.len() - 1, (self.top().0, (self.clips + 1) as usize)),
                clips: (self.clips + 1) as usize,
                ..self
            }
        }
    }

    /// The clips at positions `removed` forgotten: each level's clip depth
    /// drops by the number of them below it.
    pub open spec fn after_forget_clips(self, removed: Seq<usize>) -> Self {
        StackView {
            levels: Seq::new(
                self.levels.len(),
                |i: int|
                    (
                        self.levels[i].0,
                        (self.levels[i].1 - count_below(removed, self.levels[i].1 as int)) as usize,
                    ),
            ),
            clips: (self.clips - removed.len()) as usize,
            ..self
        }
    }
}

/// The stack of drawing states of a canvas. Each level is a state and the
/// number of clips in force at that level. Layers share the stack: each open
/// layer records the stack depth at which its own entry is on top. Saves and
/// layers past [`MAX_STATE_DEPTH`] are recorded as entries (a layer is
/// `true`) until they pop.
pub struct StateStack<S> {
    levels: Vec<(S, usize)>,
    overflow: Vec<bool>,
    overflow_level: Option<(S, usize)>,
    layers: Vec<usize>,
    clips: usize,
}

impl<S> View for StateStack<S> {
    type V = StackView<S>;

    closed spec fn view(&self) -> StackView<S> {
        StackView {
            levels: self.levels@,
            overflow: self.overflow@,
            saved_at_limit: self.overflow_level,
            layers: self.layers@,
            clips: self.clips,
        }
    }
}

impl<S: Copy> StateStack<S> {
    /// A stack of one level holding `initial` and no clips.
    pub fn new(initial: S) -> (r: Self)
        ensures
            r@.consistent(),
            r@.levels == seq![(initial, 0usize)],
            r@.overflow.len() == 0,
            r@.layers.len() == 0,
            r@.clips == 0,
    {
        let mut levels = Vec::new();
        levels.push((initial, 0));
        StateStack { levels, overflow: Vec::new(), overflow_level: None, layers: Vec::new(), clips: 0 }
    }

    /// The current state.
    pub fn state(&self) -> (r: S)
        requires
            self@.wf(),
        ensures
            r == self@.top().0,
    {
        self.levels[self.levels.len() - 1].0
    }

    /// Replaces the current state (the deepest real level, also while saturated).
    pub fn set_state(&mut self, state: S)
        requires
            old(self)@.wf(),
        ensures
            final(self)@ == old(self)@.after_set_state(state),
            final(self)@.wf(),
            old(self)@.consistent() ==> final(self)@.consistent(),
    {
        let last = self.levels.len() - 1;
        let depth = self.levels[last].1;
        self.levels.set(last, (state, depth));
        assert(forall|i: int| 0 <= i < self.levels@.len() ==> #[trigger] self.levels@[i].1 == old(self).levels@[i].1);
    }

    /// The number of levels.
    pub fn depth(&self) -> (r: usize)
        ensures
            r == self@.levels.len(),
    {
        self.levels.len()
    }

    /// The clip depth of the current level.
    pub fn clip_depth(&self) -> (r: usize)
        requires
            self@.wf(),
        ensures
            r == self@.top().1,
    {
        self.levels[self.levels.len() - 1].1
    }

    /// The number of clips in force.
    pub fn clips(&self) -> (r: usize)
        ensures
            r == self@.clips,
    {
        self.clips
    }

    /// The number of open layers.
    pub fn open_layers(&self) -> (r: usize)
        ensures
            r == self@.layers.len(),
    {
        self.layers.len()
    }

    /// Whether the stack is past the depth limit: nothing draws until the
    /// entries past it are popped.
    pub fn saturated(&self) -> (r: bool)
        ensures
            r == self@.is_saturated(),
    {
        !self.overflow.is_empty()
    }

    /// The saves (`false`) and layers (`true`) past the depth limit,
    /// innermost last.
    pub fn entries_past_limit(&self) -> (r: &Vec<bool>)
        ensures
            r@ == self@.overflow,
    {
        &self.overflow
    }

    /// While saturated, the deepest level as it was when saturation began
    /// (what the last entry's pop puts back); otherwise `None`.
    pub fn saved_at_limit(&self) -> (r: Option<(S, usize)>)
        ensures
            r == if self@.is_saturated() {
                self@.saved_at_limit
            } else {
                None
            },
    {
        if self.overflow.is_empty() {
            None
        } else {
            self.overflow_level
        }
    }

    /// Records a save or layer past the depth limit and says so; below the
    /// limit it records nothing and the caller pushes a real level. The
    /// first entry saves the deepest real level, which setters keep writing
    /// into meanwhile; popping the last entry restores it.
    fn push_past_depth_limit(&mut self, layer: bool) -> (past: bool)
        requires
            old(self)@.wf(),
        ensures
            past == old(self)@.at_limit(),
            past ==> final(self)@ == old(self)@.with_entry(layer),
            !past ==> final(self)@ == old(self)@,
            final(self)@.wf(),
            old(self)@.consistent() ==> final(self)@.consistent(),
    {
        if !self.saturated() && self.levels.len() < MAX_STATE_DEPTH {
            return false;
        }
        if self.overflow.is_empty() {
            self.overflow_level = Some(self.levels[self.levels.len() - 1]);
        }
        self.overflow.push(layer);
        true
    }

    /// Pushes a copy of the current level: a matching `restore` pops it.
    /// Past the depth limit the save is an entry of its own that still pairs
    /// with its restore, and nothing draws until it unwinds.
    pub fn save(&mut self)
        requires
            old(self)@.wf(),
        ensures
            final(self)@ == old(self)@.after_save(),
            final(self)@.top() == old(self)@.top(),
            final(self)@.wf(),
            old(self)@.consistent() ==> final(self)@.consistent(),
    {
        if self.push_past_depth_limit(false) {
            return;
        }
        let top = self.levels[self.levels.len() - 1];
        self.levels.push(top);
        assert(forall|i: int| 0 <= i < old(self).levels@.len() ==> #[trigger] self.levels@[i] == old(self).levels@[i]);
    }

    /// Puts the saved level back once the last entry past the limit pops.
    fn restore_after_saturation(&mut self)
        requires
            1 <= old(self)@.levels.len(),
            old(self)@.overflow.len() == 0 ==> old(self)@.saved_at_limit is Some,
        ensures
            final(self)@ == old(self)@.keep_entries(old(self)@.overflow.len() as int),
    {
        if self.overflow.is_empty() {
            if let Some(saved) = self.overflow_level {
                let last = self.levels.len() - 1;
                self.levels.set(last, saved);
            }
        }
        assert(self.overflow@ =~= old(self).overflow@.take(old(self).overflow@.len() as int));
    }

    /// Pops the innermost entry past the limit, reporting whether it was a
    /// layer; the last one restores the level saved when saturation began.
    fn pop_past_depth_limit(&mut self) -> (r: Option<bool>)
        requires
            old(self)@.wf(),
        ensures
            r is Some <==> old(self)@.is_saturated(),
            r is Some ==> r == Some(old(self)@.overflow.last())
                && final(self)@ == old(self)@.keep_entries(old(self)@.overflow.len() - 1),
            r is None ==> final(self)@ == old(self)@,
            final(self)@.wf(),
            old(self)@.consistent() ==> final(self)@.consistent(),
    {
        if self.overflow.is_empty() {
            return None;
        }
        let ghost before = self@;
        let layer = self.overflow.pop().unwrap();
        assert(self.overflow@ =~= before.overflow.take(before.overflow.len() - 1));
        self.restore_after_saturation();
        proof {
            if old(self)@.consistent() {
                assert(forall|i: int| 0 <= i < self.levels@.len() - 1 ==> #[trigger] self.levels@[i] == old(self).levels@[i]);
            }
        }
        Some(layer)
    }

    /// Pops the current level and the clips it owned, down to the depth the
    /// level below holds.
    fn pop_state(&mut self)
        requires
            old(self)@.wf(),
            old(self)@.levels.len() >= 2,
            !old(self)@.is_saturated(),
            forall|k: int| 0 <= k < old(self)@.layers.len() ==> #[trigger] old(self)@.layers[k]
                < old(self)@.levels.len(),
        ensures
            final(self)@ == old(self)@.cut_to(old(self)@.levels.len() - 1),
            final(self)@.wf(),
            old(self)@.consistent() ==> final(self)@.consistent(),
    {
        self.levels.pop();
        let depth = self.levels[self.levels.len() - 1].1;
        if self.clips > depth {
            self.clips = depth;
        }
        assert(self.levels@ =~= old(self).levels@.take(old(self).levels@.len() - 1));
    }

    /// Restores the previous level. A restore reaching an open layer's own
    /// entry closes that layer, exactly as [`end_layer`](Self::end_layer)
    /// does. An unmatched restore at the base level is ignored.
    pub fn restore(&mut self) -> (r: Restored)
        requires
            old(self)@.wf(),
        ensures
            r == old(self)@.restore_outcome(),
            final(self)@ == old(self)@.after_restore(),
            final(self)@.wf(),
            old(self)@.consistent() ==> final(self)@.consistent(),
    {
        if self.pop_past_depth_limit().is_some() {
            return Restored::PastLimit;
        }
        let depth = self.levels.len();
        let n = self.layers.len();
        if n > 0 && self.layers[n - 1] == depth {
            proof {
                lemma_last_layer_entry(self@.overflow, -1);
            }
            let ended = self.end_layer();
            assert(ended == LayerEnded::Closed);
            return Restored::ClosedLayer;
        }
        if depth == 1 {
            return Restored::AtBase;
        }
        proof {
            assert forall|k: int| 0 <= k < self@.layers.len() implies #[trigger] self@.layers[k]
                < self@.levels.len() by {
                if k < n - 1 {
                    assert(self@.layers[k] < self@.layers[n - 1]);
                }
            }
        }
        self.pop_state();
        Restored::Popped
    }

    /// Opens a layer: its own entry is a save that the layer's end (or a
    /// restore reaching it) pops. Past the depth limit the layer is one entry
    /// that its end pairs with, and `true` says so.
    pub fn begin_layer(&mut self) -> (past_limit: bool)
        requires
            old(self)@.wf(),
        ensures
            past_limit == old(self)@.at_limit(),
            final(self)@ == old(self)@.after_begin_layer(),
            final(self)@.top() == old(self)@.top(),
            !past_limit ==> final(self)@.levels.drop_last() == old(self)@.levels,
            final(self)@.wf(),
            old(self)@.consistent() ==> final(self)@.consistent(),
    {
        if self.push_past_depth_limit(true) {
            return true;
        }
        self.save();
        let depth = self.levels.len();
        let ghost before = self@.layers;
        self.layers.push(depth);
        assert(forall|k: int| 0 <= k < before.len() ==> #[trigger] self@.layers[k] == before[k]);
        false
    }

    /// Pops through the innermost layer entry past the limit; false, popping
    /// nothing, when none of the entries is a layer.
    fn pop_layer_past_depth_limit(&mut self) -> (popped: bool)
        requires
            old(self)@.wf(),
        ensures
            popped <==> last_layer_entry(old(self)@.overflow) >= 0,
            popped ==> final(self)@ == old(self)@.keep_entries(last_layer_entry(old(self)@.overflow)),
            !popped ==> final(self)@ == old(self)@,
            final(self)@.wf(),
            old(self)@.consistent() ==> final(self)@.consistent(),
    {
        let mut i = self.overflow.len();
        while i > 0 && !self.overflow[i - 1]
            invariant
                i <= self.overflow@.len(),
                self.overflow@ == old(self).overflow@,
                forall|k: int| i <= k < self.overflow@.len() ==> !#[trigger] self.overflow@[k],
            decreases i,
        {
            i -= 1;
        }
        if i == 0 {
            proof {
                lemma_last_layer_entry(self.overflow@, -1);
            }
            return false;
        }
        let boundary = i - 1;
        let ghost overflow = self.overflow@;
        proof {
            lemma_last_layer_entry(overflow, boundary as int);
        }
        self.overflow.truncate(boundary);
        assert(self.overflow@ =~= overflow.take(boundary as int));
        self.restore_after_saturation();
        proof {
            if old(self)@.consistent() {
                assert(forall|i: int| 0 <= i < self.levels@.len() - 1 ==> #[trigger] self.levels@[i] == old(self).levels@[i]);
            }
        }
        true
    }

    /// Restores to a layer's boundary `depth`: the saves left open inside
    /// the layer go with it, then the layer's own entry. Entries past the
    /// depth limit sit above every real boundary and go first.
    fn restore_to_layer_boundary(&mut self, depth: usize)
        requires
            old(self)@.wf(),
            2 <= depth <= old(self)@.levels.len(),
            forall|k: int| 0 <= k < old(self)@.layers.len() ==> #[trigger] old(self)@.layers[k] < depth,
        ensures
            final(self)@ == old(self)@.unwind_to(depth as int),
            final(self)@.wf(),
            old(self)@.consistent() ==> final(self)@.consistent(),
    {
        self.overflow.clear();
        self.levels.truncate(depth);
        assert(forall|i: int| 0 <= i < self.levels@.len() ==> #[trigger] self.levels@[i] == old(self).levels@[i]);
        self.pop_state();
        assert(self.levels@ =~= old(self).levels@.take(depth - 1));
    }

    /// Closes the innermost layer: the stack goes back to the level the layer
    /// began on, discarding the saves left open inside it. A layer taken past
    /// the depth limit closes with the entries above it. With no layer open
    /// nothing changes.
    pub fn end_layer(&mut self) -> (r: LayerEnded)
        requires
            old(self)@.wf(),
        ensures
            r == old(self)@.end_layer_outcome(),
            final(self)@ == old(self)@.after_end_layer(),
            final(self)@.wf(),
            old(self)@.consistent() ==> final(self)@.consistent(),
    {
        if self.pop_layer_past_depth_limit() {
            return LayerEnded::PastLimit;
        }
        if self.layers.len() == 0 {
            return LayerEnded::NoLayer;
        }
        self.close_innermost_layer();
        LayerEnded::Closed
    }

    /// Pops the innermost open layer and unwinds to the level it began on.
    fn close_innermost_layer(&mut self)
        requires
            old(self)@.wf(),
            old(self)@.layers.len() > 0,
        ensures
            final(self)@ == old(self)@.close_innermost_layer(),
            final(self)@.wf(),
            old(self)@.consistent() ==> final(self)@.consistent(),
    {
        let ghost layers = self@.layers;
        let depth = self.layers.pop().unwrap();
        assert(self@.layers =~= layers.drop_last());
        assert forall|k: int| 0 <= k < self@.layers.len() implies #[trigger] self@.layers[k] < depth by {
            assert(layers[k] < layers[layers.len() - 1]);
        }
        assert forall|k: int, l: int| 0 <= k < l < self@.layers.len() implies #[trigger] self@.layers[k]
            < #[trigger] self@.layers[l] by {
            assert(layers[k] < layers[l]);
        }
        self.restore_to_layer_boundary(depth);
    }

    /// Closes every open layer, innermost first.
    fn discard_layers(&mut self)
        requires
            old(self)@.wf(),
        ensures
            final(self)@ == old(self)@.after_discard_layers(),
            final(self)@.layers.len() == 0,
            old(self)@.overflow.len() == 0 ==> final(self)@.overflow.len() == 0,
            final(self)@.wf(),
            old(self)@.consistent() ==> final(self)@.consistent(),
    {
        while self.layers.len() > 0
            invariant
                self@.wf(),
                self@.after_discard_layers() == old(self)@.after_discard_layers(),
                old(self)@.consistent() ==> self@.consistent(),
                old(self)@.overflow.len() == 0 ==> self@.overflow.len() == 0,
            decreases self@.layers.len(),
        {
            self.close_innermost_layer();
        }
    }

    /// Resets the current level to `fresh`, discarding open layers and the
    /// entries past the depth limit first. The clips established by outer
    /// levels stay in force; those the current level added are dropped.
    pub fn reset(&mut self, fresh: S)
        requires
            old(self)@.wf(),
        ensures
            final(self)@ == old(self)@.after_reset(fresh),
            final(self)@.wf(),
            old(self)@.consistent() ==> final(self)@.consistent(),
    {
        self.overflow.clear();
        assert(self@ =~= StackView { overflow: Seq::empty(), ..old(self)@ });
        assert(old(self)@.consistent() ==> self@.consistent());
        self.discard_layers();
        let ghost mid = self@;
        let n = self.levels.len();
        let inherited = if n >= 2 { self.levels[n - 2].1 } else { 0 };
        self.levels.set(n - 1, (fresh, inherited));
        if self.clips > inherited {
            self.clips = inherited;
        }
        proof {
            if old(self)@.consistent() {
                assert(mid.consistent());
                assert(forall|i: int| 0 <= i < n - 1 ==> #[trigger] self.levels@[i] == mid.levels[i]);
                if n >= 2 {
                    assert(mid.levels[n - 2].1 <= mid.levels[n - 1].1);
                }
                assert forall|i: int, j: int| 0 <= i <= j < n implies #[trigger] self.levels@[i].1
                    <= #[trigger] self.levels@[j].1 by {
                    if j < n - 1 {
                        assert(mid.levels[i].1 <= mid.levels[j].1);
                    } else if i < n - 1 {
                        assert(mid.levels[i].1 <= mid.levels[n - 2].1);
                    }
                }
            }
        }
    }

    /// Records a clip taken at the current level. Past the depth limit
    /// nothing draws, so nothing is recorded and `false` says so.
    pub fn push_clip(&mut self) -> (recorded: bool)
        requires
            old(self)@.wf(),
            old(self)@.clips < usize::MAX,
        ensures
            recorded == !old(self)@.is_saturated(),
            final(self)@ == old(self)@.after_push_clip(),
            final(self)@.wf(),
            old(self)@.consistent() ==> final(self)@.consistent(),
    {
        if self.saturated() {
            return false;
        }
        self.clips = self.clips + 1;
        let last = self.levels.len() - 1;
        let state = self.levels[last].0;
        self.levels.set(last, (state, self.clips));
        assert(forall|i: int| 0 <= i < last ==> #[trigger] self.levels@[i] == old(self).levels@[i]);
        true
    }

    /// Forgets the clips at the positions `removed` (ascending) of the clip
    /// stack, as when their render target goes away: each level's clip depth
    /// drops by the number of forgotten clips below it. The level saved at
    /// the depth limit is left as it is.
    pub fn forget_clips(&mut self, removed: &Vec<usize>)
        requires
            old(self)@.wf(),
            strictly_increasing(removed@),
            forall|k: int| 0 <= k < removed@.len() ==> #[trigger] removed@[k] < old(self)@.clips,
        ensures
            final(self)@ == old(self)@.after_forget_clips(removed@),
            final(self)@.wf(),
            old(self)@.consistent() && (!old(self)@.is_saturated() || removed@.len() == 0)
                ==> final(self)@.consistent(),
    {
        let n = self.levels.len();
        let mut i: usize = 0;
        while i < n
            invariant
                n == self.levels@.len() == old(self).levels@.len(),
                i <= n,
                strictly_increasing(removed@),
                self.layers == old(self).layers,
                self.overflow == old(self).overflow,
                self.overflow_level == old(self).overflow_level,
                self.clips == old(self).clips,
                forall|j: int|
                    0 <= j < i ==> #[trigger] self.levels@[j] == (
                        old(self).levels@[j].0,
                        (old(self).levels@[j].1 - count_below(removed@, old(self).levels@[j].1 as int)) as usize,
                    ),
                forall|j: int| i <= j < n ==> #[trigger] self.levels@[j] == old(self).levels@[j],
            decreases n - i,
        {
            let (state, depth) = self.levels[i];
            let below = count_below_of(removed, depth);
            proof {
                lemma_count_below_at_most(removed@, depth as int);
            }
            self.levels.set(i, (state, depth - below));
            i += 1;
        }
        proof {
            lemma_count_all_below(removed@, old(self)@.clips as int);
            lemma_count_below_at_most(removed@, old(self)@.clips as int);
        }
        self.clips = self.clips - removed.len();
        assert(self.levels@ =~= old(self)@.after_forget_clips(removed@).levels);
        proof {
            if old(self)@.consistent() && (!old(self)@.is_saturated() || removed@.len() == 0) {
                lemma_forget_clips_consistent(old(self)@, removed@);
            }
        }
    }
}

/// Forgetting clips that are in force keeps the clip bookkeeping consistent
/// below the depth limit (and when nothing is forgotten): the clip count
/// drops by the number forgotten. While saturated, the level saved at the
/// limit keeps its clip depth, so consistency is not claimed there.
pub proof fn lemma_forget_clips_consistent<S>(v: StackView<S>, removed: Seq<usize>)
    requires
        v.consistent(),
        !v.is_saturated() || removed.len() == 0,
        strictly_increasing(removed),
        forall|k: int| 0 <= k < removed.len() ==> #[trigger] removed[k] < v.clips,
    ensures
        v.after_forget_clips(removed).consistent(),
        v.after_forget_clips(removed).clips == v.clips - removed.len(),
{
    let w = v.after_forget_clips(removed);
    let n = v.levels.len();
    lemma_count_all_below(removed, v.clips as int);
    lemma_count_below_at_most(removed, v.clips as int);
    assert forall|i: int| 0 <= i < n implies #[trigger] w.levels[i].1 == v.levels[i].1 - count_below(
        removed,
        v.levels[i].1 as int,
    ) by {
        lemma_count_below_at_most(removed, v.levels[i].1 as int);
    }
    assert forall|a: int, b: int| 0 <= a <= b < n implies #[trigger] w.levels[a].1 <= #[trigger] w.levels[b].1 by {
        let lo = v.levels[a].1 as int;
        let hi = v.levels[b].1 as int;
        assert(lo <= hi);
        lemma_count_below_gap(removed, lo, hi);
    }
    assert(w.levels[n - 1].1 == v.levels[n - 1].1 - count_below(removed, v.levels[n - 1].1 as int));
}

/// A save and its restore leave the stack as it was, whatever state was set
/// between them: below the depth limit the saved level pops, and at the
/// limit the save is an entry past it whose pop puts the saved level back.
pub proof fn lemma_save_restore_round_trip<S>(v: StackView<S>, state: S)
    requires
        v.consistent(),
        !v.is_saturated(),
    ensures
        v.after_save().restore_outcome() == if v.at_limit() {
            Restored::PastLimit
        } else {
            Restored::Popped
        },
        v.after_save().after_set_state(state).after_restore().levels == v.levels,
        v.after_save().after_set_state(state).after_restore().overflow == v.overflow,
        v.after_save().after_set_state(state).after_restore().layers == v.layers,
        v.after_save().after_set_state(state).after_restore().clips == v.clips,
{
    let w = v.after_save().after_set_state(state).after_restore();
    if !v.at_limit() {
        assert(v.layers.len() > 0 ==> v.layers.last() <= v.levels.len());
        assert(w.levels =~= v.levels);
    } else {
        assert(w.levels =~= v.levels);
        assert(w.overflow =~= v.overflow);
    }
}

/// A save and a layer's beginning leave the current state and clip depth
/// as they were: below the depth limit their new level is a copy of the
/// current one on top of the levels unchanged (a layer records that new
/// level as its entry), and past it the levels stay as they are.
pub proof fn lemma_new_level_copies_current<S>(v: StackView<S>)
    requires
        v.wf(),
    ensures
        v.after_save().top() == v.top(),
        v.after_begin_layer().top() == v.top(),
        v.after_save().clips == v.clips,
        v.after_begin_layer().clips == v.clips,
        !v.at_limit() ==> {
            &&& v.after_save().levels.len() == v.levels.len() + 1
            &&& v.after_save().levels.drop_last() == v.levels
            &&& v.after_begin_layer().levels.len() == v.levels.len() + 1
            &&& v.after_begin_layer().levels.drop_last() == v.levels
            &&& v.after_begin_layer().layers.last() == v.after_begin_layer().levels.len()
            &&& v.after_begin_layer().layers.drop_last() == v.layers
        },
        v.at_limit() ==> v.after_save().levels == v.levels && v.after_begin_layer().levels == v.levels,
{
    if !v.at_limit() {
        assert(v.after_save().levels.drop_last() =~= v.levels);
        assert(v.after_begin_layer().levels.drop_last() =~= v.levels);
        assert(v.after_begin_layer().layers.drop_last() =~= v.layers);
    }
}

/// A clip taken between a save and its restore is dropped by the restore.
pub proof fn lemma_clip_dropped_by_restore<S>(v: StackView<S>)
    requires
        v.consistent(),
        !v.at_limit(),
        v.clips < usize::MAX,
    ensures
        v.after_save().after_push_clip().after_restore() == v,
{
    assert(v.layers.len() > 0 ==> v.layers.last() <= v.levels.len());
    assert(v.after_save().after_push_clip().after_restore().levels =~= v.levels);
}

/// While saturated, the state set at the deepest level is discarded when
/// the last entry past the limit pops: the level saved when saturation
/// began comes back.
pub proof fn lemma_saturated_changes_discarded<S>(v: StackView<S>, state: S)
    requires
        v.wf(),
        v.overflow.len() == 1,
    ensures
        v.restore_outcome() == Restored::PastLimit,
        v.after_set_state(state).after_restore() == v.after_restore(),
        v.after_restore().top() == v.saved_at_limit->0,
        !v.after_restore().is_saturated(),
{
    assert(v.after_set_state(state).after_restore().levels =~= v.after_restore().levels);
}

/// A layer's end pairs with its beginning and leaves the stack as it was,
/// below the depth limit and past it.
pub proof fn lemma_layer_round_trip<S>(v: StackView<S>)
    requires
        v.consistent(),
        !v.is_saturated(),
    ensures
        v.after_begin_layer().end_layer_outcome() == if v.at_limit() {
            LayerEnded::PastLimit
        } else {
            LayerEnded::Closed
        },
        v.after_begin_layer().after_end_layer().levels == v.levels,
        v.after_begin_layer().after_end_layer().overflow == v.overflow,
        v.after_begin_layer().after_end_layer().layers == v.layers,
        v.after_begin_layer().after_end_layer().clips == v.clips,
{
    let w = v.after_begin_layer();
    if v.at_limit() {
        assert(w.overflow =~= seq![true]);
        assert(w.overflow.drop_last() =~= Seq::<bool>::empty());
        assert(last_layer_entry(w.overflow) == 0);
        assert(w.after_end_layer().levels =~= v.levels);
        assert(w.after_end_layer().overflow =~= v.overflow);
    } else {
        assert(last_layer_entry(w.overflow) == -1);
        assert(w.layers.drop_last() =~= v.layers);
        assert(w.after_end_layer().levels =~= v.levels);
    }
}

/// A restore with a layer's own entry on top closes that layer exactly as
/// its end does, below the depth limit and past it; in particular a restore
/// right after a layer begins closes it as the layer's end would.
pub proof fn lemma_restore_reaches_layer<S>(v: StackView<S>)
    requires
        v.wf(),
    ensures
        !v.is_saturated() && v.layers.len() > 0 && v.layers.last() == v.levels.len() ==> {
            &&& v.restore_outcome() == Restored::ClosedLayer
            &&& v.end_layer_outcome() == LayerEnded::Closed
            &&& v.after_restore() == v.after_end_layer()
        },
        !v.is_saturated() ==> v.after_begin_layer().after_restore() == v.after_begin_layer().after_end_layer(),
{
    if !v.is_saturated() {
        lemma_last_layer_entry(v.overflow, -1);
    }
    let w = v.after_begin_layer();
    if !v.is_saturated() {
        if v.at_limit() {
            assert(w.overflow =~= seq![true]);
            assert(w.overflow.drop_last() =~= Seq::<bool>::empty());
            assert(last_layer_entry(w.overflow) == 0);
        } else {
            lemma_last_layer_entry(w.overflow, -1);
        }
    }
}

/// A layer's end discards the saves left open inside the layer.
pub proof fn lemma_layer_end_discards_open_saves<S>(v: StackView<S>)
    requires
        v.consistent(),
        v.levels.len() + 2 <= MAX_STATE_DEPTH,
        !v.is_saturated(),
    ensures
        v.after_begin_layer().after_save().after_end_layer() == v,
{
    let w = v.after_begin_layer().after_save();
    assert(last_layer_entry(w.overflow) == -1);
    assert(w.layers.drop_last() =~= v.layers);
    assert(w.after_end_layer().levels =~= v.levels);
}

/// A reset keeps the outer levels and drops the clips the current level
/// added, leaving in force exactly the clips a restore would.
pub proof fn lemma_reset_keeps_outer_clips<S>(v: StackView<S>, fresh: S)
    requires
        v.consistent(),
        v.levels.len() >= 2,
        v.layers.len() == 0,
        !v.is_saturated(),
    ensures
        v.after_restore().clips == v.after_reset(fresh).clips,
        v.after_reset(fresh).levels.drop_last() == v.levels.drop_last(),
        v.after_reset(fresh).top() == (fresh, v.levels[v.levels.len() - 2].1),
{
    let c = StackView { overflow: Seq::<bool>::empty(), ..v };
    assert(c.after_discard_layers() == c);
    assert(c =~= v);
    assert(v.after_reset(fresh).levels.drop_last() =~= v.levels.drop_last());
}

/// An unmatched restore at the base level changes nothing.
pub proof fn lemma_unmatched_restore_ignored<S>(v: StackView<S>)
    requires
        v.wf(),
        v.levels.len() == 1,
        !v.is_saturated(),
    ensures
        v.restore_outcome() == Restored::AtBase,
        v.after_restore() == v,
{
    if v.layers.len() > 0 {
        assert(2 <= v.layers[v.layers.len() - 1]);
    }
}

/// How many of `removed` lie below `depth`.
fn count_below_of(removed: &Vec<usize>, depth: usize) -> (r: usize)
    ensures
        r == count_below(removed@, depth as int),
{
    let mut count: usize = 0;
    let mut j: usize = 0;
    while j < removed.len()
        invariant
            j <= removed@.len(),
            count == count_below(removed@.take(j as int), depth as int),
            count <= j,
        decreases removed@.len() - j,
    {
        assert(removed@.take(j + 1).drop_last() =~= removed@.take(j as int));
        if removed[j] < depth {
            count += 1;
        }
        j += 1;
    }
    assert(removed@.take(j as int) =~= removed@);
    count
}

} // verus!
