//! The frontier and horizon bookkeeping behind the moving extrema.
//!
//! For each channel the state keeps two items of the window. The frontier is
//! an extremum of the whole window. The horizon is an extremum of the items
//! that are newer than the frontier, and there is one exactly when there are
//! such items. Positions count from the oldest item of the window, which is
//! at position 0; the horizon's position is an offset from the item that
//! follows the frontier.
//!
//! Most updates touch only these two items. When the frontier leaves the
//! window and the incoming value does not surpass the horizon, the horizon
//! is promoted to frontier and the items after it are scanned for the next
//! horizon, so an update costs time linear in the window length in the worst
//! case, which a steadily worsening input meets on every step.

use vstd::prelude::*;

use crate::buffer::Fixed;
use crate::sample::Sample;
use crate::stats::{is_extremum, surpasses, surpasses_spec};

verus! {

/// What one update did to the frontier and horizon of a channel.
#[derive(Debug, Copy, Clone, PartialEq, Eq, Structural)]
pub enum Diff {
    /// The new value changed neither the frontier nor the horizon.
    NoChange,
    /// The new value became the frontier.
    Frontier,
    /// The new value replaced the horizon.
    Horizon,
    /// The new value became the horizon where there was none.
    HorizonInit,
    /// The frontier left the window and the horizon took its place.
    Promoted,
}

/// The frontier, the horizon and the change of one channel after an update.
pub struct Step<S> {
    pub frontier: (S, usize),
    pub horizon: Option<(S, usize)>,
    pub diff: Diff,
}

/// The step that leaves a channel with `frontier` and `horizon` and reports
/// `diff`.
pub open spec fn step<S>(frontier: (S, usize), horizon: Option<(S, usize)>, diff: Diff) -> Step<S> {
    Step { frontier, horizon, diff }
}

/// The values of channel `channel` in the frames of `window`.
pub open spec fn column<S, const N: usize>(window: Seq<[S; N]>, channel: int) -> Seq<S> {
    Seq::new(window.len(), |i: int| window[i][channel])
}

/// The offset that a horizon at `position` has from a frontier at `frontier`.
pub open spec fn horizon_offset(position: int, frontier: int) -> usize {
    (position - frontier - 1) as usize
}

/// Whether `frontier` and `horizon` describe `column`: the frontier is an
/// extremum of the column, and the horizon is an extremum of the items after
/// the frontier, present exactly when there are such items.
pub open spec fn channel_tracks<S: Sample>(
    max: bool,
    frontier: (S, usize),
    horizon: Option<(S, usize)>,
    column: Seq<S>,
) -> bool {
    &&& frontier.1 < column.len()
    &&& column[frontier.1 as int] == frontier.0
    &&& forall|j: int| 0 <= j < column.len() ==> !surpasses_spec(max, #[trigger] column[j], frontier.0)
    &&& match horizon {
        None => frontier.1 + 1 == column.len(),
        Some(h) => {
            &&& frontier.1 + 1 + h.1 < column.len()
            &&& column[frontier.1 + 1 + h.1] == h.0
            &&& forall|j: int|
                frontier.1 < j < column.len() ==> !surpasses_spec(max, #[trigger] column[j], h.0)
        },
    }
}

/// The first extremum among the items of `column` from position `from` up to
/// but not including position `upto`, with its offset from `from`.
pub open spec fn scan<S: Sample>(max: bool, column: Seq<S>, from: int, upto: int) -> Option<
    (S, usize),
>
    decreases upto - from,
{
    if upto <= from {
        None
    } else {
        let last = column[upto - 1];
        match scan(max, column, from, upto - 1) {
            None => Some((last, (upto - 1 - from) as usize)),
            Some(best) => if surpasses_spec(max, last, best.0) {
                Some((last, (upto - 1 - from) as usize))
            } else {
                Some(best)
            },
        }
    }
}

/// What appending `x` at position `cursor` does to a channel.
pub open spec fn push_channel<S: Sample>(
    max: bool,
    frontier: (S, usize),
    horizon: Option<(S, usize)>,
    x: S,
    cursor: usize,
) -> Step<S> {
    if surpasses_spec(max, x, frontier.0) {
        Step { frontier: (x, cursor), horizon: None, diff: Diff::Frontier }
    } else {
        match horizon {
            Some(h) => if surpasses_spec(max, x, h.0) {
                Step {
                    frontier,
                    horizon: Some((x, horizon_offset(cursor as int, frontier.1 as int))),
                    diff: Diff::Horizon,
                }
            } else {
                Step { frontier, horizon, diff: Diff::NoChange }
            },
            None => Step {
                frontier,
                horizon: Some((x, horizon_offset(cursor as int, frontier.1 as int))),
                diff: Diff::HorizonInit,
            },
        }
    }
}

/// What appending `x` and evicting the oldest item does to a channel, where
/// `column` is the channel after the update and `cursor` its last position.
pub open spec fn push_pop_channel<S: Sample>(
    max: bool,
    frontier: (S, usize),
    horizon: Option<(S, usize)>,
    x: S,
    cursor: usize,
    column: Seq<S>,
) -> Step<S> {
    let evicted = frontier.1 == 0;
    let aged = if evicted {
        frontier
    } else {
        (frontier.0, (frontier.1 - 1) as usize)
    };
    if surpasses_spec(max, x, frontier.0) {
        Step { frontier: (x, cursor), horizon: None, diff: Diff::Frontier }
    } else {
        match horizon {
            Some(h) => if evicted {
                if surpasses_spec(max, x, h.0) {
                    Step { frontier: (x, cursor), horizon: None, diff: Diff::Frontier }
                } else {
                    Step {
                        frontier: h,
                        horizon: scan(max, column, h.1 + 1, column.len() as int),
                        diff: Diff::Promoted,
                    }
                }
            } else {
                if surpasses_spec(max, x, h.0) {
                    Step {
                        frontier: aged,
                        horizon: Some((x, horizon_offset(cursor as int, aged.1 as int))),
                        diff: Diff::Horizon,
                    }
                } else {
                    Step { frontier: aged, horizon, diff: Diff::NoChange }
                }
            },
            None => if evicted {
                Step { frontier: (x, cursor), horizon: None, diff: Diff::Frontier }
            } else {
                Step {
                    frontier: aged,
                    horizon: Some((x, horizon_offset(cursor as int, aged.1 as int))),
                    diff: Diff::HorizonInit,
                }
            },
        }
    }
}

/// A scan of a range without items finds nothing; any other scan finds an
/// item of the range that none of the range surpasses.
pub proof fn lemma_scan<S: Sample>(max: bool, column: Seq<S>, from: int, upto: int)
    requires
        0 <= from,
        upto <= column.len() <= usize::MAX,
    ensures
        upto <= from ==> scan(max, column, from, upto) is None,
        from < upto ==> match scan(max, column, from, upto) {
            None => false,
            Some(best) => {
                &&& from + best.1 < upto
                &&& column[from + best.1] == best.0
                &&& forall|j: int|
                    from <= j < upto ==> !surpasses_spec(max, #[trigger] column[j], best.0)
            },
        },
    decreases upto - from,
{
    if from < upto {
        lemma_scan(max, column, from, upto - 1);
    }
}

/// Appending a value keeps the frontier and the horizon true to the column.
pub proof fn lemma_push_channel_tracks<S: Sample>(
    max: bool,
    frontier: (S, usize),
    horizon: Option<(S, usize)>,
    x: S,
    column: Seq<S>,
)
    requires
        channel_tracks(max, frontier, horizon, column),
        column.len() <= usize::MAX,
    ensures
        ({
            let step = push_channel(max, frontier, horizon, x, column.len() as usize);
            channel_tracks(max, step.frontier, step.horizon, column.push(x))
        }),
{
    let step = push_channel(max, frontier, horizon, x, column.len() as usize);
    let grown = column.push(x);
    assert forall|j: int| 0 <= j < grown.len() implies !surpasses_spec(
        max,
        #[trigger] grown[j],
        step.frontier.0,
    ) by {
        if j < column.len() {
            assert(!surpasses_spec(max, column[j], frontier.0));
        }
    }
    match step.horizon {
        None => {},
        Some(h) => {
            assert forall|j: int| step.frontier.1 < j < grown.len() implies !surpasses_spec(
                max,
                #[trigger] grown[j],
                h.0,
            ) by {
                if j < column.len() && horizon is Some {
                    assert(!surpasses_spec(max, column[j], horizon.unwrap().0));
                }
            }
        },
    }
}

/// Appending a value while the oldest item leaves keeps the frontier and the
/// horizon true to the column.
pub proof fn lemma_push_pop_channel_tracks<S: Sample>(
    max: bool,
    frontier: (S, usize),
    horizon: Option<(S, usize)>,
    x: S,
    before: Seq<S>,
)
    requires
        channel_tracks(max, frontier, horizon, before),
        before.len() <= usize::MAX,
    ensures
        ({
            let after = before.drop_first().push(x);
            let step = push_pop_channel(
                max,
                frontier,
                horizon,
                x,
                (before.len() - 1) as usize,
                after,
            );
            channel_tracks(max, step.frontier, step.horizon, after)
        }),
{
    let after = before.drop_first().push(x);
    let cursor = (before.len() - 1) as usize;
    let step = push_pop_channel(max, frontier, horizon, x, cursor, after);
    assert forall|j: int| 0 <= j < after.len() - 1 implies #[trigger] after[j] == before[j + 1] by {}
    if step.diff == Diff::Promoted {
        let h = horizon.unwrap();
        lemma_scan(max, after, h.1 + 1, after.len() as int);
        assert forall|j: int| 0 <= j < after.len() implies !surpasses_spec(
            max,
            #[trigger] after[j],
            step.frontier.0,
        ) by {
            if j < after.len() - 1 {
                assert(!surpasses_spec(max, before[j + 1], h.0));
            }
        }
    } else {
        assert forall|j: int| 0 <= j < after.len() implies !surpasses_spec(
            max,
            #[trigger] after[j],
            step.frontier.0,
        ) by {
            if j < after.len() - 1 {
                assert(!surpasses_spec(max, before[j + 1], frontier.0));
                if horizon is Some && frontier.1 == 0 {
                    assert(!surpasses_spec(max, before[j + 1], horizon.unwrap().0));
                }
            }
        }
        match step.horizon {
            None => {},
            Some(s) => {
                assert forall|j: int| step.frontier.1 < j < after.len() implies !surpasses_spec(
                    max,
                    #[trigger] after[j],
                    s.0,
                ) by {
                    if j < after.len() - 1 && horizon is Some {
                        assert(frontier.1 < j + 1);
                        assert(!surpasses_spec(max, before[j + 1], horizon.unwrap().0));
                    }
                }
            },
        }
    }
}

/// When the frontier leaves the window and the horizon is promoted, the new
/// frontier is an extremum of the window that remains, and the new horizon
/// is an extremum of the items after it.
pub proof fn lemma_promotion_finds_the_extremum<S: Sample>(
    max: bool,
    frontier: (S, usize),
    horizon: Option<(S, usize)>,
    x: S,
    before: Seq<S>,
)
    requires
        channel_tracks(max, frontier, horizon, before),
        before.len() <= usize::MAX,
        push_pop_channel(
            max,
            frontier,
            horizon,
            x,
            (before.len() - 1) as usize,
            before.drop_first().push(x),
        ).diff == Diff::Promoted,
    ensures
        ({
            let after = before.drop_first().push(x);
            let step = push_pop_channel(
                max,
                frontier,
                horizon,
                x,
                (before.len() - 1) as usize,
                after,
            );
            &&& frontier.1 == 0
            &&& horizon == Some(step.frontier)
            &&& is_extremum(max, after, step.frontier.0)
            &&& step.horizon matches Some(h) && is_extremum(
                max,
                after.skip(step.frontier.1 + 1),
                h.0,
            )
        }),
{
    let after = before.drop_first().push(x);
    let step = push_pop_channel(max, frontier, horizon, x, (before.len() - 1) as usize, after);
    lemma_push_pop_channel_tracks(max, frontier, horizon, x, before);
    assert(after[step.frontier.1 as int] == step.frontier.0);
    let h = step.horizon.unwrap();
    let rest = after.skip(step.frontier.1 + 1);
    assert(rest[h.1 as int] == h.0);
    assert forall|j: int| 0 <= j < rest.len() implies !surpasses_spec(max, #[trigger] rest[j], h.0) by {
        assert(rest[j] == after[step.frontier.1 + 1 + j]);
    }
}

/// In a window of a single item every update makes the incoming value the
/// frontier, and no horizon forms.
pub proof fn lemma_single_item_window<S: Sample>(
    max: bool,
    frontier: (S, usize),
    horizon: Option<(S, usize)>,
    x: S,
    before: Seq<S>,
)
    requires
        channel_tracks(max, frontier, horizon, before),
        before.len() == 1,
    ensures
        push_pop_channel(max, frontier, horizon, x, 0, seq![x]) == step(
            (x, 0usize),
            None,
            Diff::Frontier,
        ),
{
}


/// Makes `contender`, at position `cursor_pos`, the frontier, and clears the
/// horizon.
pub fn set_frontier<S: Sample>(
    frontier: &mut (S, usize),
    opt_horizon: &mut Option<(S, usize)>,
    contender: S,
    cursor_pos: usize,
) -> (diff: Diff)
    ensures
        *final(frontier) == (contender, cursor_pos),
        *final(opt_horizon) == None::<(S, usize)>,
        diff == Diff::Frontier,
{
    *frontier = (contender, cursor_pos);
    *opt_horizon = None;
    Diff::Frontier
}

/// Makes `contender`, at position `cursor_pos`, the horizon in place of the
/// present one.
pub fn set_horizon<S: Sample>(
    horizon: &mut (S, usize),
    contender: S,
    frontier_pos: usize,
    cursor_pos: usize,
) -> (diff: Diff)
    requires
        frontier_pos < cursor_pos,
    ensures
        *final(horizon) == (contender, horizon_offset(cursor_pos as int, frontier_pos as int)),
        diff == Diff::Horizon,
{
    *horizon = (contender, cursor_pos - frontier_pos - 1);
    Diff::Horizon
}

/// Makes `contender`, at position `cursor_pos`, the horizon where there was
/// none.
pub fn set_horizon_init<S: Sample>(
    opt_horizon: &mut Option<(S, usize)>,
    contender: S,
    frontier_pos: usize,
    cursor_pos: usize,
    expect_zero: bool,
) -> (diff: Diff)
    requires
        frontier_pos < cursor_pos,
        expect_zero ==> frontier_pos + 1 == cursor_pos,
    ensures
        *final(opt_horizon) == Some(
            (contender, horizon_offset(cursor_pos as int, frontier_pos as int)),
        ),
        diff == Diff::HorizonInit,
{
    let frontier_offset = cursor_pos - frontier_pos - 1;
    *opt_horizon = Some((contender, frontier_offset));
    Diff::HorizonInit
}

/// The frontier and horizon of every channel of a window of frames with `N`
/// channels, for the extremum that `MAX` selects.
#[derive(Debug, Copy, Clone, PartialEq, Eq)]
pub struct ExtremaState<S: Sample, const N: usize, const MAX: bool> {
    frontiers: [(S, usize); N],
    horizons: [Option<(S, usize)>; N],
    cursor_pos: usize,
}

impl<S: Sample, const N: usize, const MAX: bool> ExtremaState<S, N, MAX> {
    /// The frontier of each channel: its value and its position.
    pub closed spec fn frontiers(&self) -> Seq<(S, usize)> {
        self.frontiers@
    }

    /// The horizon of each channel: its value and its offset from the item
    /// after the frontier.
    pub closed spec fn horizons(&self) -> Seq<Option<(S, usize)>> {
        self.horizons@
    }

    /// The position of the newest item.
    pub closed spec fn cursor(&self) -> usize {
        self.cursor_pos
    }

    /// Whether the positions are in range: no frontier lies beyond the
    /// cursor, and a channel has a horizon, not beyond the cursor either,
    /// exactly when its frontier lies before the cursor.
    pub open spec fn wf(&self) -> bool {
        &&& self.frontiers().len() == N
        &&& self.horizons().len() == N
        &&& self.cursor() < usize::MAX
        &&& forall|ch: int|
            0 <= ch < N ==> match #[trigger] self.horizons()[ch] {
                None => self.frontiers()[ch].1 == self.cursor(),
                Some(h) => self.frontiers()[ch].1 + 1 + h.1 <= self.cursor(),
            }
    }

    /// Whether the state describes `window`: in every channel the frontier
    /// is an extremum of the window, and the horizon an extremum of the items
    /// after the frontier.
    pub open spec fn tracks(&self, window: Seq<[S; N]>) -> bool {
        &&& self.frontiers().len() == N
        &&& self.horizons().len() == N
        &&& window.len() == self.cursor() + 1
        &&& forall|ch: int|
            0 <= ch < N ==> channel_tracks(
                MAX,
                self.frontiers()[ch],
                #[trigger] self.horizons()[ch],
                column(window, ch),
            )
    }

    /// A state that describes a window is well formed.
    pub proof fn lemma_tracks_wf(&self, window: Seq<[S; N]>)
        requires
            self.tracks(window),
            window.len() <= usize::MAX,
        ensures
            self.wf(),
    {
        assert forall|ch: int| 0 <= ch < N implies match #[trigger] self.horizons()[ch] {
            None => self.frontiers()[ch].1 == self.cursor(),
            Some(h) => self.frontiers()[ch].1 + 1 + h.1 <= self.cursor(),
        } by {
            assert(channel_tracks(
                MAX,
                self.frontiers()[ch],
                self.horizons()[ch],
                column(window, ch),
            ));
        }
    }

    /// The state of a window that holds the frame `xs` and nothing else.
    pub fn from(xs: [S; N]) -> (state: Self)
        ensures
            state.wf(),
            state.cursor() == 0,
            state.tracks(seq![xs]),
            forall|ch: int|
                0 <= ch < N ==> #[trigger] state.frontiers()[ch] == (xs[ch], 0usize)
                    && state.horizons()[ch] == None::<(S, usize)>,
    {
        Self::filled(xs, 0)
    }

    /// The state of a window that holds the frame `xs` in each of its
    /// `cursor_pos + 1` positions, with every frontier on the newest one.
    pub fn filled(xs: [S; N], cursor_pos: usize) -> (state: Self)
        requires
            cursor_pos < usize::MAX,
        ensures
            state.wf(),
            state.cursor() == cursor_pos,
            state.tracks(Seq::new((cursor_pos + 1) as nat, |i: int| xs)),
            forall|ch: int|
                0 <= ch < N ==> #[trigger] state.frontiers()[ch] == (xs[ch], cursor_pos)
                    && state.horizons()[ch] == None::<(S, usize)>,
    {
        let mut frontiers = [(S::equilibrium(), cursor_pos);N];
        let mut ch: usize = 0;
        while ch < N
            invariant
                0 <= ch <= N,
                forall|c: int| 0 <= c < ch ==> #[trigger] frontiers@[c] == (xs[c], cursor_pos),
            decreases N - ch,
        {
            frontiers[ch] = (xs[ch], cursor_pos);
            ch += 1;
        }
        let horizons: [Option<(S, usize)>; N] = [None;N];
        let state = Self { frontiers, horizons, cursor_pos };
        proof {
            let window = Seq::new((cursor_pos + 1) as nat, |i: int| xs);
            assert forall|c: int| 0 <= c < N implies channel_tracks(
                MAX,
                state.frontiers()[c],
                #[trigger] state.horizons()[c],
                column(window, c),
            ) by {
                assert(state.frontiers@[c] == (xs[c], cursor_pos));
            }
        }
        state
    }

    /// The state of a window that holds the equilibrium and nothing else.
    pub fn default() -> (state: Self)
        ensures
            state.wf(),
            state.cursor() == 0,
            forall|ch: int|
                0 <= ch < N ==> (#[trigger] state.frontiers()[ch]).0.level()
                    == S::equilibrium_level() && state.frontiers()[ch].1 == 0
                    && state.horizons()[ch] == None::<(S, usize)>,
    {
        let frontiers = [(S::equilibrium(), 0usize);N];
        let horizons: [Option<(S, usize)>; N] = [None;N];
        Self { frontiers, horizons, cursor_pos: 0 }
    }

    /// The state that describes `window`, found by appending its frames one
    /// by one.
    pub fn from_window(window: &Fixed<[S; N]>) -> (state: Self)
        requires
            window@.len() > 0,
        ensures
            state.wf(),
            state.tracks(window@),
    {
        let len = window.capacity();
        let mut frames = window.iter();
        let first = frames.next().unwrap();
        let mut state = Self::from(*first);
        let mut count: usize = 1;
        assert(window@.subrange(0, 1) =~= seq![*first]);
        loop
            invariant
                1 <= count <= len,
                window@.len() == len,
                frames@ == window@.skip(count as int),
                state.wf(),
                state.cursor() == count - 1,
                state.tracks(window@.subrange(0, count as int)),
            ensures
                count == len,
                state.wf(),
                state.tracks(window@.subrange(0, count as int)),
            decreases len - count,
        {
            match frames.next() {
                Some(frame) => {
                    assert(*frame == window@[count as int]);
                    assert(frames@ =~= window@.skip(count + 1));
                    assert(window@.subrange(0, count as int).push(*frame) =~= window@.subrange(
                        0,
                        count + 1,
                    ));
                    state.push(*frame);
                    count += 1;
                },
                None => {
                    break ;
                },
            }
        }
        assert(window@.subrange(0, len as int) =~= window@);
        state
    }

    /// The frontier of channel `ch`: its value and its position.
    pub fn frontier(&self, ch: usize) -> (frontier: (S, usize))
        requires
            ch < N,
        ensures
            frontier == self.frontiers()[ch as int],
    {
        self.frontiers[ch]
    }

    /// How many items ago the frontier of channel `ch` entered the window:
    /// 0 for the newest item.
    pub fn frontier_age(&self, ch: usize) -> (age: usize)
        requires
            self.wf(),
            ch < N,
        ensures
            age == self.cursor() - self.frontiers()[ch as int].1,
    {
        assert(match #[trigger] self.horizons()[ch as int] {
            None => self.frontiers()[ch as int].1 == self.cursor(),
            Some(h) => self.frontiers()[ch as int].1 + 1 + h.1 <= self.cursor(),
        });
        self.cursor_pos - self.frontiers[ch].1
    }

    /// The horizon of channel `ch`, if it has one: its value and its offset
    /// from the item after the frontier.
    pub fn horizon(&self, ch: usize) -> (horizon: Option<(S, usize)>)
        requires
            ch < N,
        ensures
            horizon == self.horizons()[ch as int],
    {
        self.horizons[ch]
    }

    /// The position of the newest item.
    pub fn cursor_pos(&self) -> (cursor_pos: usize)
        ensures
            cursor_pos == self.cursor(),
    {
        self.cursor_pos
    }

    /// The frame of the frontier values, which are the extrema of the window
    /// that the state describes.
    pub fn extrema(&self) -> (frame: [S; N])
        requires
            self.wf(),
        ensures
            forall|ch: int| 0 <= ch < N ==> #[trigger] frame[ch] == self.frontiers()[ch].0,
            forall|window: Seq<[S; N]>, ch: int| #[trigger]
                self.tracks(window) && 0 <= ch < N ==> is_extremum(
                    MAX,
                    #[trigger] column(window, ch),
                    frame[ch],
                ),
    {
        let mut frame = [S::equilibrium();N];
        let mut ch: usize = 0;
        while ch < N
            invariant
                0 <= ch <= N,
                forall|c: int| 0 <= c < ch ==> #[trigger] frame[c] == self.frontiers@[c].0,
            decreases N - ch,
        {
            frame[ch] = self.frontiers[ch].0;
            ch += 1;
        }
        proof {
            assert forall|window: Seq<[S; N]>, ch: int| #[trigger]
                self.tracks(window) && 0 <= ch < N implies is_extremum(
                MAX,
                #[trigger] column(window, ch),
                frame[ch],
            ) by {
                assert(channel_tracks(
                    MAX,
                    self.frontiers()[ch],
                    self.horizons()[ch],
                    column(window, ch),
                ));
                assert(column(window, ch)[self.frontiers()[ch].1 as int] == frame[ch]);
            }
        }
        frame
    }

    /// Appends the frame `xs` to the window that the state describes.
    pub fn push(&mut self, xs: [S; N]) -> (diffs: [Diff; N])
        requires
            old(self).wf(),
            old(self).cursor() + 1 < usize::MAX,
        ensures
            final(self).wf(),
            final(self).cursor() == old(self).cursor() + 1,
            forall|ch: int|
                0 <= ch < N ==> step(
                    final(self).frontiers()[ch],
                    final(self).horizons()[ch],
                    #[trigger] diffs[ch],
                ) == push_channel(
                    MAX,
                    old(self).frontiers()[ch],
                    old(self).horizons()[ch],
                    xs[ch],
                    final(self).cursor(),
                ),
            forall|window: Seq<[S; N]>| #[trigger]
                old(self).tracks(window) ==> final(self).tracks(window.push(xs)),
    {
        let mut diffs = [Diff::NoChange;N];
        self.cursor_pos += 1;
        let cursor_pos = self.cursor_pos;
        let mut ch: usize = 0;
        while ch < N
            invariant
                0 <= ch <= N,
                old(self).wf(),
                cursor_pos == old(self).cursor_pos + 1,
                self.cursor_pos == cursor_pos,
                forall|c: int|
                    0 <= c < ch ==> step(
                        self.frontiers@[c],
                        self.horizons@[c],
                        #[trigger] diffs[c],
                    ) == push_channel(
                        MAX,
                        old(self).frontiers@[c],
                        old(self).horizons@[c],
                        xs[c],
                        cursor_pos,
                    ),
                forall|c: int|
                    ch <= c < N ==> self.frontiers@[c] == old(self).frontiers@[c]
                        && self.horizons@[c] == old(self).horizons@[c],
            decreases N - ch,
        {
            let x = xs[ch];
            let (f_ext, f_pos) = self.frontiers[ch];
            assert(old(self).horizons()[ch as int] == self.horizons@[ch as int]);
            let diff = if surpasses::<S, MAX>(&x, &f_ext) {
                set_frontier(&mut self.frontiers[ch], &mut self.horizons[ch], x, cursor_pos)
            } else {
                match &mut self.horizons[ch] {
                    Some(h) => {
                        if surpasses::<S, MAX>(&x, &h.0) {
                            set_horizon(h, x, f_pos, cursor_pos)
                        } else {
                            Diff::NoChange
                        }
                    },
                    opt_h => set_horizon_init(opt_h, x, f_pos, cursor_pos, true),
                }
            };
            diffs[ch] = diff;
            ch += 1;
        }
        proof {
            assert forall|c: int| 0 <= c < N implies match #[trigger] self.horizons()[c] {
                None => self.frontiers()[c].1 == self.cursor(),
                Some(h) => self.frontiers()[c].1 + 1 + h.1 <= self.cursor(),
            } by {
                assert(step(self.frontiers@[c], self.horizons@[c], diffs[c]) == push_channel(
                    MAX,
                    old(self).frontiers@[c],
                    old(self).horizons@[c],
                    xs[c],
                    cursor_pos,
                ));
                assert(match #[trigger] old(self).horizons()[c] {
                    None => old(self).frontiers()[c].1 == old(self).cursor(),
                    Some(h) => old(self).frontiers()[c].1 + 1 + h.1 <= old(self).cursor(),
                });
            }
            assert forall|window: Seq<[S; N]>| #[trigger]
                old(self).tracks(window) implies self.tracks(window.push(xs)) by {
                assert forall|c: int| 0 <= c < N implies channel_tracks(
                    MAX,
                    self.frontiers()[c],
                    #[trigger] self.horizons()[c],
                    column(window.push(xs), c),
                ) by {
                    assert(step(self.frontiers@[c], self.horizons@[c], diffs[c]) == push_channel(
                        MAX,
                        old(self).frontiers@[c],
                        old(self).horizons@[c],
                        xs[c],
                        cursor_pos,
                    ));
                    assert(channel_tracks(
                        MAX,
                        old(self).frontiers()[c],
                        old(self).horizons()[c],
                        column(window, c),
                    ));
                    lemma_push_channel_tracks(
                        MAX,
                        old(self).frontiers()[c],
                        old(self).horizons()[c],
                        xs[c],
                        column(window, c),
                    );
                    assert(column(window.push(xs), c) =~= column(window, c).push(xs[c]));
                }
            }
        }
        diffs
    }

    /// Scans the items of channel `ch` from position `from` on for the first
    /// extremum among them.
    fn scout(window: &Fixed<[S; N]>, ch: usize, from: usize) -> (found: Option<(S, usize)>)
        requires
            ch < N,
            0 < from <= window@.len(),
        ensures
            found == scan(MAX, column(window@, ch as int), from as int, window@.len() as int),
    {
        let ghost col = column(window@, ch as int);
        let len = window.capacity();
        let mut w = window.iter();
        let _skipped = w.nth(from - 1);
        let mut disc_h: Option<(S, usize)> = None;
        let mut horizon_offset: usize = 0;
        loop
            invariant
                ch < N,
                col == column(window@, ch as int),
                0 < from <= window@.len(),
                window@.len() == len,
                from + horizon_offset <= window@.len(),
                w@ == window@.skip(from + horizon_offset),
                disc_h == scan(MAX, col, from as int, from + horizon_offset),
            ensures
                disc_h == scan(MAX, col, from as int, window@.len() as int),
            decreases window@.len() - from - horizon_offset,
        {
            match w.next() {
                Some(frame) => {
                    let y = frame[ch];
                    assert(y == col[from + horizon_offset]);
                    match disc_h {
                        Some((disc_h_ext, _)) => {
                            if surpasses::<S, MAX>(&y, &disc_h_ext) {
                                disc_h = Some((y, horizon_offset));
                            }
                        },
                        None => {
                            disc_h = Some((y, horizon_offset));
                        },
                    }
                    assert(w@ =~= window@.skip(from + horizon_offset + 1));
                    horizon_offset += 1;
                },
                None => {
                    break ;
                },
            }
        }
        disc_h
    }

    /// Appends the frame `xs` to the window that the state describes while
    /// the oldest frame leaves it, where `window` is the window after the
    /// update.
    pub fn push_pop(&mut self, xs: [S; N], window: &Fixed<[S; N]>) -> (diffs: [Diff; N])
        requires
            old(self).wf(),
            window@.len() == old(self).cursor() + 1,
        ensures
            final(self).wf(),
            final(self).cursor() == old(self).cursor(),
            forall|ch: int|
                0 <= ch < N ==> step(
                    final(self).frontiers()[ch],
                    final(self).horizons()[ch],
                    #[trigger] diffs[ch],
                ) == push_pop_channel(
                    MAX,
                    old(self).frontiers()[ch],
                    old(self).horizons()[ch],
                    xs[ch],
                    old(self).cursor(),
                    column(window@, ch),
                ),
            forall|before: Seq<[S; N]>| #[trigger]
                old(self).tracks(before) && window@ == before.drop_first().push(xs)
                    ==> final(self).tracks(window@),
    {
        let mut diffs = [Diff::NoChange;N];
        let cursor_pos = self.cursor_pos;
        let mut ch: usize = 0;
        while ch < N
            invariant
                0 <= ch <= N,
                old(self).wf(),
                window@.len() == cursor_pos + 1,
                cursor_pos == old(self).cursor_pos,
                self.cursor_pos == cursor_pos,
                forall|c: int|
                    0 <= c < ch ==> step(
                        self.frontiers@[c],
                        self.horizons@[c],
                        #[trigger] diffs[c],
                    ) == push_pop_channel(
                        MAX,
                        old(self).frontiers@[c],
                        old(self).horizons@[c],
                        xs[c],
                        cursor_pos,
                        column(window@, c),
                    ),
                forall|c: int|
                    ch <= c < N ==> self.frontiers@[c] == old(self).frontiers@[c]
                        && self.horizons@[c] == old(self).horizons@[c],
            decreases N - ch,
        {
            let x = xs[ch];
            assert(old(self).horizons()[ch as int] == self.horizons@[ch as int]);
            let is_f_pop = self.frontiers[ch].1 == 0;
            if !is_f_pop {
                self.frontiers[ch].1 -= 1;
            }
            let (f_ext, f_pos) = self.frontiers[ch];
            let diff = if surpasses::<S, MAX>(&x, &f_ext) {
                set_frontier(&mut self.frontiers[ch], &mut self.horizons[ch], x, cursor_pos)
            } else {
                match &mut self.horizons[ch] {
                    Some(h) => {
                        let (h_ext, h_pos) = *h;
                        let sniped = surpasses::<S, MAX>(&x, &h_ext);
                        if !is_f_pop {
                            if sniped {
                                set_horizon(h, x, f_pos, cursor_pos)
                            } else {
                                Diff::NoChange
                            }
                        } else if sniped {
                            set_frontier(
                                &mut self.frontiers[ch],
                                &mut self.horizons[ch],
                                x,
                                cursor_pos,
                            )
                        } else {
                            self.frontiers[ch] = (h_ext, h_pos);
                            self.horizons[ch] = Self::scout(window, ch, h_pos + 1);
                            Diff::Promoted
                        }
                    },
                    opt_h => {
                        if is_f_pop {
                            set_frontier(
                                &mut self.frontiers[ch],
                                &mut self.horizons[ch],
                                x,
                                cursor_pos,
                            )
                        } else {
                            set_horizon_init(opt_h, x, f_pos, cursor_pos, true)
                        }
                    },
                }
            };
            diffs[ch] = diff;
            ch += 1;
        }
        proof {
            assert forall|c: int| 0 <= c < N implies match #[trigger] self.horizons()[c] {
                None => self.frontiers()[c].1 == self.cursor(),
                Some(h) => self.frontiers()[c].1 + 1 + h.1 <= self.cursor(),
            } by {
                assert(step(self.frontiers@[c], self.horizons@[c], diffs[c]) == push_pop_channel(
                    MAX,
                    old(self).frontiers@[c],
                    old(self).horizons@[c],
                    xs[c],
                    cursor_pos,
                    column(window@, c),
                ));
                assert(match #[trigger] old(self).horizons()[c] {
                    None => old(self).frontiers()[c].1 == old(self).cursor(),
                    Some(h) => old(self).frontiers()[c].1 + 1 + h.1 <= old(self).cursor(),
                });
                if diffs[c] == Diff::Promoted {
                    let h = old(self).horizons()[c].unwrap();
                    lemma_scan(MAX, column(window@, c), h.1 + 1, window@.len() as int);
                }
            }
            assert forall|before: Seq<[S; N]>| #[trigger]
                old(self).tracks(before) && window@ == before.drop_first().push(
                    xs,
                ) implies self.tracks(window@) by {
                assert forall|c: int| 0 <= c < N implies channel_tracks(
                    MAX,
                    self.frontiers()[c],
                    #[trigger] self.horizons()[c],
                    column(window@, c),
                ) by {
                    assert(step(self.frontiers@[c], self.horizons@[c], diffs[c])
                        == push_pop_channel(
                        MAX,
                        old(self).frontiers@[c],
                        old(self).horizons@[c],
                        xs[c],
                        cursor_pos,
                        column(window@, c),
                    ));
                    assert(channel_tracks(
                        MAX,
                        old(self).frontiers()[c],
                        old(self).horizons()[c],
                        column(before, c),
                    ));
                    lemma_push_pop_channel_tracks(
                        MAX,
                        old(self).frontiers()[c],
                        old(self).horizons()[c],
                        xs[c],
                        column(before, c),
                    );
                    assert(column(window@, c) =~= column(before, c).drop_first().push(xs[c]));
                }
            }
        }
        diffs
    }
}

} // verus!
