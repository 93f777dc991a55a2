//! Smooth scrolling: the part of the grid that is moving, and the cells that
//! are on their way out of it.

use crate::grid;
use crate::grid::Cell;
use crate::grid::CellView;
use crate::grid::ScrollRecord;
use crate::grid::ScrollView;
use crate::ui;
use crate::ui::Redraw;
use crate::ui::UiView;
use crate::value::Value;
use vstd::prelude::*;

verus! {

/// The furthest that contents are moved smoothly, in rows.
pub const MAX_SCROLL_ROWS: usize = 8;

/// A region whose contents are moving to their place. The spring says how far
/// they still have to go.
pub struct ScrollAnimation<S> {
    pub top: usize,
    pub bottom: usize,
    pub left: usize,
    pub right: usize,
    /// 1 where the contents move up, -1 where they move down.
    pub direction: i8,
    pub spring: S,
    /// The rows that are moving out of the region, top row first.
    pub trailing: Vec<Vec<Cell>>,
}

/// What a scroll animation holds.
#[verifier::ext_equal]
pub struct AnimationView<S> {
    pub top: usize,
    pub bottom: usize,
    pub left: usize,
    pub right: usize,
    pub direction: i8,
    pub spring: S,
    pub trailing: Seq<Seq<CellView>>,
}

impl<S> View for ScrollAnimation<S> {
    type V = AnimationView<S>;

    open spec fn view(&self) -> AnimationView<S> {
        AnimationView {
            top: self.top,
            bottom: self.bottom,
            left: self.left,
            right: self.right,
            direction: self.direction,
            spring: self.spring,
            trailing: grid::rows_view(self.trailing@),
        }
    }
}

/// Whether rows of cells are all of one width.
pub open spec fn rows_have_width(rows: Seq<Seq<CellView>>, width: int) -> bool {
    forall|r: int| 0 <= r < rows.len() ==> (#[trigger] rows[r]).len() == width
}

/// Which way contents that moved by this many rows went.
pub open spec fn direction_of(rows: i64) -> int {
    if rows > 0 {
        1
    } else if rows < 0 {
        -1
    } else {
        0
    }
}

/// The absolute value of a number of rows.
pub open spec fn distance_of(rows: i64) -> int {
    if rows < 0 {
        -rows
    } else {
        rows as int
    }
}

impl ScrollView {
    /// Whether the evicted rows fit the region, and are as many as it moved by or,
    /// if it moved further than that, as it has.
    pub open spec fn wf(self) -> bool {
        &&& self.left <= self.right
        &&& rows_have_width(self.evicted, self.right - self.left)
        &&& self.evicted.len() == if distance_of(self.rows) < self.bottom - self.top {
            distance_of(self.rows)
        } else {
            self.bottom - self.top
        }
    }

    /// Whether the move is one to show: not nothing, not too far, and not as far
    /// as the region is high.
    pub open spec fn is_smooth(self) -> bool {
        &&& 0 < distance_of(self.rows) <= MAX_SCROLL_ROWS
        &&& distance_of(self.rows) < self.bottom - self.top
    }
}

impl<S> AnimationView<S> {
    /// Whether the trailing rows fit the region and are not too many.
    pub open spec fn wf(self) -> bool {
        &&& self.left <= self.right
        &&& rows_have_width(self.trailing, self.right - self.left)
        &&& self.trailing.len() <= MAX_SCROLL_ROWS
        &&& self.direction == 1 || self.direction == -1
    }

    /// Whether a cell is in the moving region.
    pub open spec fn covers(self, row: int, col: int) -> bool {
        self.top <= row < self.bottom && self.left <= col < self.right
    }

    /// Whether a further move can be added: the same region, the same way, and
    /// no more trailing rows than are shown.
    pub open spec fn admits(self, scroll: ScrollView) -> bool {
        &&& self.top == scroll.top
        &&& self.bottom == scroll.bottom
        &&& self.left == scroll.left
        &&& self.right == scroll.right
        &&& self.direction == direction_of(scroll.rows)
        &&& self.trailing.len() + scroll.evicted.len() <= MAX_SCROLL_ROWS
    }

    /// The animation with a further move added. The rows that left first are
    /// furthest out. The spring stays as it is.
    pub open spec fn extended(self, scroll: ScrollView) -> AnimationView<S> {
        AnimationView {
            trailing: if self.direction > 0 {
                self.trailing + scroll.evicted
            } else {
                scroll.evicted + self.trailing
            },
            ..self
        }
    }
}

/// The animation that a move begins.
pub open spec fn begun<S>(scroll: ScrollView, spring: S) -> AnimationView<S> {
    AnimationView {
        top: scroll.top,
        bottom: scroll.bottom,
        left: scroll.left,
        right: scroll.right,
        direction: direction_of(scroll.rows) as i8,
        spring,
        trailing: scroll.evicted,
    }
}

fn direction(rows: i64) -> (direction: i8)
    ensures
        direction == direction_of(rows),
{
    if rows > 0 {
        1
    } else if rows < 0 {
        -1
    } else {
        0
    }
}

impl<S> ScrollAnimation<S> {
    /// Whether a further move can be added to this one.
    pub fn compatible(&self, scroll: &ScrollRecord) -> (compatible: bool)
        ensures
            compatible == self@.admits(scroll@),
    {
        self.top == scroll.top && self.bottom == scroll.bottom && self.left == scroll.left
            && self.right == scroll.right && self.direction == direction(scroll.rows)
            && scroll.evicted.len() <= MAX_SCROLL_ROWS && self.trailing.len() <= MAX_SCROLL_ROWS
            - scroll.evicted.len()
    }

    /// Adds a further move: takes over the rows that it evicted. The result says
    /// by how many rows the spring is to be stretched.
    pub fn absorb(&mut self, scroll: ScrollRecord) -> (rows: i64)
        ensures
            final(self)@ == old(self)@.extended(scroll@),
            rows == scroll.rows,
    {
        let ghost before = self@;
        let ghost added = scroll@;
        let rows: i64 = scroll.rows;
        let mut evicted = scroll.evicted;
        if self.direction > 0 {
            self.trailing.append(&mut evicted);
            assert(self@.trailing =~= before.trailing + added.evicted);
        } else {
            evicted.append(&mut self.trailing);
            self.trailing = evicted;
            assert(self@.trailing =~= added.evicted + before.trailing);
        }
        rows
    }

    /// Whether a cell is in the moving region.
    pub fn contains(&self, row: usize, col: usize) -> (inside: bool)
        ensures
            inside == self@.covers(row as int, col as int),
    {
        row >= self.top && row < self.bottom && col >= self.left && col < self.right
    }
}

/// What becomes of the animation when the contents of a region move.
#[derive(Clone, Copy, Debug, PartialEq, Eq)]
pub enum ScrollStep {
    /// The contents are at their new place at once; nothing moves any more.
    Snapped,
    /// An animation begins, with the contents this many rows away.
    Started(i64),
    /// The animation goes on, with the contents this many rows further away.
    Extended(i64),
}

/// What becomes of the animation when the contents of a region move.
pub open spec fn step_of<S>(animation: Option<AnimationView<S>>, scroll: ScrollView) -> ScrollStep {
    if !scroll.is_smooth() {
        ScrollStep::Snapped
    } else {
        match animation {
            Some(current) => if current.admits(scroll) {
                ScrollStep::Extended(scroll.rows)
            } else {
                ScrollStep::Snapped
            },
            None => ScrollStep::Started(scroll.rows),
        }
    }
}

/// What an animation, if there is one, holds.
pub open spec fn animation_view<S>(animation: Option<ScrollAnimation<S>>) -> Option<
    AnimationView<S>,
> {
    match animation {
        Some(current) => Some(current@),
        None => None,
    }
}

/// Whether an animation, if there is one, is well formed.
pub open spec fn animation_wf<S>(animation: Option<ScrollAnimation<S>>) -> bool {
    animation matches Some(current) ==> current@.wf()
}

/// The animation after the contents of a region moved. A spring at rest is that
/// of an animation that begins.
pub open spec fn animation_after<S>(
    animation: Option<AnimationView<S>>,
    scroll: ScrollView,
    at_rest: S,
) -> Option<AnimationView<S>> {
    match step_of(animation, scroll) {
        ScrollStep::Snapped => None,
        ScrollStep::Started(_) => Some(begun(scroll, at_rest)),
        ScrollStep::Extended(_) => Some(animation->0.extended(scroll)),
    }
}

/// Takes up a move of the contents of a region: into the animation that goes on,
/// as a new one, or not at all.
pub fn absorb_scroll<S: Copy>(
    animation: &mut Option<ScrollAnimation<S>>,
    scroll: ScrollRecord,
    at_rest: S,
) -> (step: ScrollStep)
    requires
        animation_wf(*old(animation)),
        scroll@.wf(),
    ensures
        animation_wf(*final(animation)),
        step == step_of(animation_view(*old(animation)), scroll@),
        animation_view(*final(animation)) == animation_after(
            animation_view(*old(animation)),
            scroll@,
            at_rest,
        ),
{
    let ghost before = *animation;
    let rows: i64 = scroll.rows;
    let far: i128 = rows as i128;
    let far: i128 = if far < 0 { -far } else { far };
    if far == 0 || far > MAX_SCROLL_ROWS as i128 || far >= scroll.bottom as i128
        - scroll.top as i128 {
        *animation = None;
        return ScrollStep::Snapped;
    }
    match animation.take() {
        Some(mut current) => {
            if current.compatible(&scroll) {
                let ghost old_current = current@;
                let added: i64 = current.absorb(scroll);
                assert(rows_have_width(current@.trailing, current@.right - current@.left));
                *animation = Some(current);
                ScrollStep::Extended(added)
            } else {
                ScrollStep::Snapped
            }
        },
        None => {
            let begins = ScrollAnimation {
                top: scroll.top,
                bottom: scroll.bottom,
                left: scroll.left,
                right: scroll.right,
                direction: direction(rows),
                spring: at_rest,
                trailing: scroll.evicted,
            };
            *animation = Some(begins);
            ScrollStep::Started(rows)
        },
    }
}

/// What a list of moves amounts to: the animation after them, whether any of them
/// was not shown, and by how many rows the moves since then stretched the spring.
#[verifier::ext_equal]
pub struct Moves<S> {
    pub animation: Option<AnimationView<S>>,
    pub snapped: bool,
    pub stretches: Seq<i64>,
}

impl<S> Moves<S> {
    /// With one move more.
    pub open spec fn then_scroll(self, scroll: ScrollView, at_rest: S) -> Moves<S> {
        let step = step_of(self.animation, scroll);
        Moves {
            animation: animation_after(self.animation, scroll, at_rest),
            snapped: self.snapped || step is Snapped,
            stretches: if step is Snapped {
                Seq::empty()
            } else {
                self.stretches.push(scroll.rows)
            },
        }
    }
}

/// What the first `n` of a list of moves amount to.
pub open spec fn moves_of<S>(
    animation: Option<AnimationView<S>>,
    scrolls: Seq<ScrollView>,
    at_rest: S,
    n: nat,
) -> Moves<S>
    decreases n,
{
    if n == 0 {
        Moves { animation, snapped: false, stretches: Seq::empty() }
    } else {
        moves_of(animation, scrolls, at_rest, (n - 1) as nat).then_scroll(scrolls[n - 1], at_rest)
    }
}

/// What taking up a list of moves amounts to, besides the animation.
#[derive(Debug, PartialEq, Eq)]
pub struct Absorbed {
    /// A move was not shown.
    pub snapped: bool,
    /// By how many rows each move since then stretches the spring.
    pub stretches: Vec<i64>,
}

/// Takes up a list of moves, in order.
pub fn absorb_scrolls<S: Copy>(
    animation: &mut Option<ScrollAnimation<S>>,
    scrolls: Vec<ScrollRecord>,
    at_rest: S,
) -> (absorbed: Absorbed)
    requires
        animation_wf(*old(animation)),
        forall|i: int| 0 <= i < scrolls@.len() ==> (#[trigger] scrolls@[i])@.wf(),
    ensures
        animation_wf(*final(animation)),
        (Moves {
            animation: animation_view(*final(animation)),
            snapped: absorbed.snapped,
            stretches: absorbed.stretches@,
        }) == moves_of(
            animation_view(*old(animation)),
            ui::scrolls_view(scrolls@),
            at_rest,
            scrolls@.len(),
        ),
{
    let ghost first = animation_view(*animation);
    let ghost list = ui::scrolls_view(scrolls@);
    let ghost all = scrolls@;
    let mut snapped: bool = false;
    let mut stretches: Vec<i64> = Vec::new();
    let mut scrolls = scrolls;
    let count: usize = scrolls.len();
    let mut done: usize = 0;
    while done < count
        invariant
            animation_wf(*animation),
            done <= count == all.len(),
            list == ui::scrolls_view(all),
            scrolls@ == all.skip(done as int),
            forall|i: int| 0 <= i < all.len() ==> (#[trigger] all[i])@.wf(),
            (Moves {
                animation: animation_view(*animation),
                snapped,
                stretches: stretches@,
            }) == moves_of(first, list, at_rest, done as nat),
        decreases count - done,
    {
        let scroll = scrolls.remove(0);
        assert(scroll == all[done as int]);
        assert(scrolls@ =~= all.skip(done + 1));
        match absorb_scroll(animation, scroll, at_rest) {
            ScrollStep::Snapped => {
                snapped = true;
                stretches.clear();
            },
            ScrollStep::Started(rows) => {
                stretches.push(rows);
            },
            ScrollStep::Extended(rows) => {
                stretches.push(rows);
            },
        }
        done += 1;
    }
    Absorbed { snapped, stretches }
}

/// The record that the grid makes of a move is well formed.
pub proof fn law_scroll_records_fit(grid: grid::GridView, region: grid::ScrollRegion)
    requires
        grid.wf(),
        region.wf(grid.width as int, grid.height as int),
    ensures
        grid.scroll_record(region).wf(),
{
}

/// Whether the grid and all records of moves are well formed, part way through a
/// batch of events.
spec fn is_whole(redraw: Redraw) -> bool {
    &&& redraw.ui.grid.wf()
    &&& forall|i: int|
        0 <= i < redraw.result.scrolls.len() ==> (#[trigger] redraw.result.scrolls[i]).wf()
}

proof fn lemma_event_keeps_whole(redraw: Redraw, name: Seq<char>, p: Seq<Value>)
    requires
        is_whole(redraw),
    ensures
        is_whole(redraw.event(name, p)),
{
    let after = redraw.event(name, p);
    match redraw.ui.grid.scroll_region(p) {
        Some(region) => {
            law_scroll_records_fit(redraw.ui.grid, region);
        },
        None => {},
    }
    assert(after.ui.grid.wf());
}

proof fn lemma_calls_keep_whole(redraw: Redraw, name: Seq<char>, calls: Seq<Value>, n: nat)
    requires
        is_whole(redraw),
        n <= calls.len(),
    ensures
        is_whole(redraw.calls(name, calls, n)),
    decreases n,
{
    if n > 0 {
        lemma_calls_keep_whole(redraw, name, calls, (n - 1) as nat);
        let before = redraw.calls(name, calls, (n - 1) as nat);
        match calls[n - 1].array_value() {
            Some(p) => {
                lemma_event_keeps_whole(before, name, p);
            },
            None => {},
        }
    }
}

proof fn lemma_batch_keeps_whole(redraw: Redraw, events: Seq<Value>, n: nat)
    requires
        is_whole(redraw),
        n <= events.len(),
    ensures
        is_whole(redraw.batch(events, n)),
    decreases n,
{
    if n > 0 {
        lemma_batch_keeps_whole(redraw, events, (n - 1) as nat);
        let before = redraw.batch(events, (n - 1) as nat);
        match ui::event_name(events[n - 1]) {
            Some(name) => {
                let entry = events[n - 1].array_value()->0;
                let flushed = before.result.flushed || name == "flush"@;
                let from = Redraw {
                    ui: before.ui,
                    result: ui::RedrawView { flushed, ..before.result },
                };
                lemma_calls_keep_whole(from, name, entry.skip(1), (entry.len() - 1) as nat);
            },
            None => {},
        }
    }
}

/// No batch of events leaves the grid with rows of the wrong number or width, and
/// every record that it makes of a move is well formed.
pub proof fn law_redraws_keep_grid_and_records_whole(ui: UiView, events: Seq<Value>)
    requires
        ui.grid.wf(),
    ensures
        ui::redrawn(ui, events).ui.grid.wf(),
        forall|i: int|
            0 <= i < ui::redrawn(ui, events).result.scrolls.len() ==> (
            #[trigger] ui::redrawn(ui, events).result.scrolls[i]).wf(),
{
    lemma_batch_keeps_whole(Redraw { ui, result: ui::no_redraw() }, events, events.len());
}

/// Two moves of a region the same way amount to one move by the sum of their rows: the
/// grid shows the same, and the rows that moved out, in the order in which an animation
/// keeps them, are the same.
pub proof fn law_two_moves_are_one<S>(
    grid: grid::GridView,
    first: grid::ScrollRegion,
    second: grid::ScrollRegion,
    both: grid::ScrollRegion,
    at_rest: S,
)
    requires
        grid.wf(),
        first.wf(grid.width as int, grid.height as int),
        second == (grid::ScrollRegion { rows: second.rows, ..first }),
        both == (grid::ScrollRegion { rows: both.rows, ..first }),
        both.rows == first.rows + second.rows,
        first.rows > 0 && second.rows > 0 || first.rows < 0 && second.rows < 0,
        distance_of(both.rows) <= first.bottom - first.top,
    ensures
        grid.scrolled(first).scrolled(second) == grid.scrolled(both),
        begun(grid.scroll_record(first), at_rest).extended(
            grid.scrolled(first).scroll_record(second),
        ).trailing == grid.scroll_record(both).evicted,
{
    let once = grid.scrolled(first);
    assert(once.scrolled(second).rows =~~= grid.scrolled(both).rows);
    let trailing = begun(grid.scroll_record(first), at_rest).extended(
        once.scroll_record(second),
    ).trailing;
    assert(trailing =~~= grid.scroll_record(both).evicted);
}

/// A move is shown smoothly where it is by one to eight rows and by less than the region is
/// high, and either nothing else moves, or the same region moves the same way and no more
/// than eight rows are on their way out. All else puts everything in its place at once.
pub proof fn law_which_moves_are_smooth<S>(
    animation: Option<AnimationView<S>>,
    scroll: ScrollView,
    at_rest: S,
)
    requires
        animation matches Some(current) ==> current.wf(),
    ensures
        ({
            let rows = scroll.rows;
            let height = scroll.bottom - scroll.top;
            let smooth = rows != 0 && -8 <= rows <= 8 && -height < rows < height;
            let goes_on = animation matches Some(current) && current.top == scroll.top
                && current.bottom == scroll.bottom && current.left == scroll.left && current.right
                == scroll.right && (current.direction > 0 <==> rows > 0) && current.trailing.len()
                + scroll.evicted.len() <= 8;
            let step = step_of(animation, scroll);
            let after = animation_after(animation, scroll, at_rest);
            &&& smooth && animation is None ==> step == ScrollStep::Started(rows)
            &&& smooth && goes_on ==> step == ScrollStep::Extended(rows)
            &&& !smooth || (animation is Some && !goes_on) ==> step == ScrollStep::Snapped
            &&& step == ScrollStep::Snapped <==> after is None
        }),
{
}

/// An animation that begins is of the region that moved, with the rows that moved out, a
/// spring at rest, and in the direction of the move.
pub proof fn law_animations_begin_with_their_move<S>(scroll: ScrollView, at_rest: S)
    requires
        step_of(None::<AnimationView<S>>, scroll) is Started,
    ensures
        ({
            let after = animation_after(None, scroll, at_rest);
            &&& after is Some
            &&& after->0.top == scroll.top
            &&& after->0.bottom == scroll.bottom
            &&& after->0.left == scroll.left
            &&& after->0.right == scroll.right
            &&& after->0.direction == if scroll.rows > 0 {
                1int
            } else {
                -1int
            }
            &&& after->0.spring == at_rest
            &&& after->0.trailing == scroll.evicted
        }),
{
}

/// An animation that goes on keeps its region, direction and spring. The rows that move out
/// come next to the region: below those before them where the contents move up, and above
/// them where they move down.
pub proof fn law_animations_go_on_in_order<S>(
    current: AnimationView<S>,
    scroll: ScrollView,
    at_rest: S,
    index: int,
)
    requires
        current.wf(),
        step_of(Some(current), scroll) is Extended,
        0 <= index < current.trailing.len() + scroll.evicted.len(),
    ensures
        ({
            let after = animation_after(Some(current), scroll, at_rest);
            &&& after is Some
            &&& after->0 == (AnimationView { trailing: after->0.trailing, ..current })
            &&& after->0.trailing.len() == current.trailing.len() + scroll.evicted.len()
            &&& scroll.rows > 0 ==> after->0.trailing[index] == if index < current.trailing.len() {
                current.trailing[index]
            } else {
                scroll.evicted[index - current.trailing.len()]
            }
            &&& scroll.rows < 0 ==> after->0.trailing[index] == if index < scroll.evicted.len() {
                scroll.evicted[index]
            } else {
                current.trailing[index - scroll.evicted.len()]
            }
        }),
{
}

/// Moves are taken up in order, and the spring is stretched by the rows of each move since
/// the last one that was not shown.
pub proof fn law_moves_are_taken_up_in_order<S>(
    animation: Option<AnimationView<S>>,
    scrolls: Seq<ScrollView>,
    at_rest: S,
    n: nat,
) -> (since: nat)
    requires
        n <= scrolls.len(),
    ensures
        ({
            let moves = moves_of(animation, scrolls, at_rest, n);
            &&& since <= n
            &&& moves.snapped <==> since > 0
            &&& moves.stretches.len() == n - since
            &&& forall|i: int|
                0 <= i < moves.stretches.len() ==> #[trigger] moves.stretches[i] == scrolls[since
                    + i].rows
            &&& since > 0 ==> step_of(
                moves_of(animation, scrolls, at_rest, (since - 1) as nat).animation,
                scrolls[since - 1],
            ) is Snapped
            &&& forall|k: nat|
                since <= k < n ==> !(step_of(
                    (#[trigger] moves_of(animation, scrolls, at_rest, k)).animation,
                    scrolls[k as int],
                ) is Snapped)
            &&& n > 0 ==> moves.animation == animation_after(
                moves_of(animation, scrolls, at_rest, (n - 1) as nat).animation,
                scrolls[n - 1],
                at_rest,
            )
        }),
    decreases n,
{
    if n == 0 {
        0
    } else {
        let before = moves_of(animation, scrolls, at_rest, (n - 1) as nat);
        let since = law_moves_are_taken_up_in_order(animation, scrolls, at_rest, (n - 1) as nat);
        if step_of(before.animation, scrolls[n - 1]) is Snapped {
            n
        } else {
            since
        }
    }
}

/// A further move is added to one that is shown where the same region moves the same way, and
/// no more than eight rows are on their way out.
pub proof fn law_which_moves_go_together<S>(current: AnimationView<S>, scroll: ScrollView)
    requires
        current.wf(),
    ensures
        current.admits(scroll) <==> {
            &&& current.top == scroll.top && current.bottom == scroll.bottom
            &&& current.left == scroll.left && current.right == scroll.right
            &&& (current.direction == 1 && scroll.rows > 0) || (current.direction == -1
                && scroll.rows < 0)
            &&& current.trailing.len() + scroll.evicted.len() <= 8
        },
{
}

} // verus!
