//! The per-iteration decisions of the cooperative event loop: apply every
//! drained job completion, then every key of the input burst, and only then
//! decide whether to redraw, how long to sleep, and whether the burst had to
//! be cut short for sustained input.

use vstd::prelude::*;

use crate::editor::{spec_on_key, Editor, EditorModel, Key};
use crate::layout::{rect_wf, Rect};

verus! {

/// Minimum interval between two redraws, in milliseconds.
pub const REDRAW_LATENCY_MS: u64 = 6;

/// How long an uninterrupted input burst may run before it is cut short so
/// that a redraw is never starved, in milliseconds.
pub const SUSTAINED_IO_LATENCY_MS: u64 = 100;

/// The bounded fallback pause of an iteration that neither drew nor slept,
/// in milliseconds.
pub const IDLE_SLEEP_MS: u64 = 1;

/// What the loop does at the end of one iteration.
#[derive(Clone, Copy, PartialEq, Eq, Structural, Debug)]
pub enum IterationStep {
    /// Redraw now; the caller then takes the minimal pause.
    Redraw,
    /// Nothing is owed to the screen yet: sleep out the rest of the redraw
    /// interval.
    Sleep { ms: u64 },
    /// Input is sustained, or the screen is clean past the interval: only
    /// the minimal pause.
    Pause,
}

/// The outcome of one completed job as read from the channel: a payload
/// that arrived (delivered to the panes by the caller) or a failure
/// reported by the job, which is logged on the prompt.
pub enum CompletionOutcome {
    Success,
    Failure(String),
}

/// The redraw throttle: the dirty flag and the time of the last redraw.
pub struct LoopState {
    pub dirty: bool,
    pub last_drawn_ms: u64,
}

/// The redraw decision at the end of an iteration: draw when there are
/// unconsumed changes and the minimum interval has passed; otherwise, unless
/// the burst was cut short for sustained input, sleep out the remainder of
/// the interval; otherwise only pause.
pub open spec fn spec_step(dirty: bool, sustained: bool, now: int, last: int) -> IterationStep {
    if dirty && now - last >= REDRAW_LATENCY_MS {
        IterationStep::Redraw
    } else if !sustained && now - last < REDRAW_LATENCY_MS {
        IterationStep::Sleep { ms: (REDRAW_LATENCY_MS - (now - last)) as u64 }
    } else {
        IterationStep::Pause
    }
}

pub open spec fn spec_apply_completion(m: EditorModel, c: CompletionOutcome) -> EditorModel {
    match c {
        CompletionOutcome::Success => m,
        CompletionOutcome::Failure(message) => EditorModel { log: Some(message@), ..m },
    }
}

pub open spec fn spec_apply_completions(m: EditorModel, cs: Seq<CompletionOutcome>) -> EditorModel
    decreases cs,
{
    if cs.len() == 0 {
        m
    } else {
        spec_apply_completion(spec_apply_completions(m, cs.drop_last()), cs.last())
    }
}

pub open spec fn spec_apply_keys(m: EditorModel, ks: Seq<Key>) -> EditorModel
    decreases ks,
{
    if ks.len() == 0 {
        m
    } else {
        spec_on_key(spec_apply_keys(m, ks.drop_last()), ks.last())
    }
}

impl LoopState {
    /// Starts with the screen owed a first draw at once.
    pub fn new(now_ms: u64) -> (s: LoopState)
        ensures
            s.dirty == true,
            s.last_drawn_ms == (if now_ms >= REDRAW_LATENCY_MS {
                now_ms - REDRAW_LATENCY_MS
            } else {
                0
            }),
    {
        let last_drawn_ms = if now_ms >= REDRAW_LATENCY_MS {
            now_ms - REDRAW_LATENCY_MS
        } else {
            0
        };
        LoopState { dirty: true, last_drawn_ms }
    }

    /// Marks unconsumed state changes that the next redraw must show.
    pub fn mark_dirty(&mut self)
        ensures
            final(self).dirty == true,
            final(self).last_drawn_ms == old(self).last_drawn_ms,
    {
        self.dirty = true;
    }

    /// Takes the redraw decision for this iteration and, on a redraw,
    /// consumes the dirty flag and stamps the redraw time.
    pub fn step(&mut self, sustained: bool, now_ms: u64) -> (r: IterationStep)
        requires
            old(self).last_drawn_ms <= now_ms,
        ensures
            r == spec_step(old(self).dirty, sustained, now_ms as int, old(self).last_drawn_ms as int),
            r is Redraw ==> final(self).dirty == false && final(self).last_drawn_ms == now_ms,
            !(r is Redraw) ==> *final(self) == *old(self),
    {
        let elapsed = now_ms - self.last_drawn_ms;
        if self.dirty && elapsed >= REDRAW_LATENCY_MS {
            self.dirty = false;
            self.last_drawn_ms = now_ms;
            IterationStep::Redraw
        } else if !sustained && elapsed < REDRAW_LATENCY_MS {
            IterationStep::Sleep { ms: REDRAW_LATENCY_MS - elapsed }
        } else {
            IterationStep::Pause
        }
    }
}

/// Whether an input burst that began at `first_event_ms` has run past the
/// sustained-input window by `now_ms`, so that it must be cut short.
pub fn burst_cut(first_event_ms: u64, now_ms: u64) -> (r: bool)
    requires
        first_event_ms <= now_ms,
    ensures
        r == (now_ms - first_event_ms >= SUSTAINED_IO_LATENCY_MS),
{
    now_ms - first_event_ms >= SUSTAINED_IO_LATENCY_MS
}

/// One loop iteration over already-drained events. Every completion is
/// applied before every key, every key before the redraw decision: however
/// many events arrive within one iteration, they coalesce into at most one
/// redraw, and that redraw sees the state after all of them. Payload
/// delivery to the panes and key forwarding stay with the caller (through
/// `completion_targets` and the dispatch directive of `on_key`); the quit
/// chord never reaches this function because the caller returns upon
/// reading it, and it would change no state here.
#[verifier::loop_isolation(false)]
pub fn process_iteration(
    editor: &mut Editor,
    lstate: &mut LoopState,
    completions: &Vec<CompletionOutcome>,
    keys: &Vec<Key>,
    frame: Rect,
    sustained: bool,
    now_ms: u64,
) -> (step: IterationStep)
    requires
        old(editor).wf(),
        rect_wf(frame),
        old(lstate).last_drawn_ms <= now_ms,
    ensures
        final(editor).wf(),
        final(editor)@ == spec_apply_keys(
            spec_apply_completions(old(editor)@, completions@),
            keys@,
        ),
        step == spec_step(
            old(lstate).dirty || completions@.len() > 0 || keys@.len() > 0,
            sustained,
            now_ms as int,
            old(lstate).last_drawn_ms as int,
        ),
        step is Redraw ==> final(lstate).dirty == false && final(lstate).last_drawn_ms == now_ms,
        !(step is Redraw) ==> final(lstate).dirty == (old(lstate).dirty || completions@.len() > 0
            || keys@.len() > 0) && final(lstate).last_drawn_ms == old(lstate).last_drawn_ms,
        final(editor).syntax_theme_set == old(editor).syntax_theme_set,
{
    let ghost m0 = editor@;
    let mut i: usize = 0;
    proof {
        assert(completions@.take(0) =~= Seq::<CompletionOutcome>::empty());
    }
    while i < completions.len()
        invariant
            i <= completions@.len(),
            editor.wf(),
            editor@ == spec_apply_completions(m0, completions@.take(i as int)),
            editor.syntax_theme_set == old(editor).syntax_theme_set,
        decreases completions@.len() - i,
    {
        let ghost before = editor@;
        match &completions[i] {
            CompletionOutcome::Success => {},
            CompletionOutcome::Failure(message) => {
                let owned = message.clone();
                editor.on_job_failure(owned);
            },
        }
        proof {
            assert(completions@.take(i + 1).drop_last() =~= completions@.take(i as int));
            assert(completions@.take(i + 1).last() == completions@[i as int]);
            assert(editor@ =~= spec_apply_completion(before, completions@[i as int]));
        }
        i = i + 1;
    }
    proof {
        assert(completions@.take(completions@.len() as int) =~= completions@);
    }
    let ghost m1 = editor@;
    let mut j: usize = 0;
    proof {
        assert(keys@.take(0) =~= Seq::<Key>::empty());
    }
    while j < keys.len()
        invariant
            j <= keys@.len(),
            editor.wf(),
            editor@ == spec_apply_keys(m1, keys@.take(j as int)),
            editor.syntax_theme_set == old(editor).syntax_theme_set,
        decreases keys@.len() - j,
    {
        let key = keys[j];
        let _dispatch = editor.on_key(key, frame);
        proof {
            assert(keys@.take(j + 1).drop_last() =~= keys@.take(j as int));
            assert(keys@.take(j + 1).last() == keys@[j as int]);
        }
        j = j + 1;
    }
    proof {
        assert(keys@.take(keys@.len() as int) =~= keys@);
    }
    if completions.len() > 0 || keys.len() > 0 {
        lstate.mark_dirty();
    }
    lstate.step(sustained, now_ms)
}

/// The number of redraws one iteration step performs.
pub open spec fn redraws_of(step: IterationStep) -> int {
    if step is Redraw {
        1
    } else {
        0
    }
}

/// law: a burst of any number of key events inside one iteration — in
/// particular one that exceeded the sustained-input window and was cut
/// short — ends in at most one redraw, never one per event.
pub proof fn lemma_burst_coalesces(
    dirty: bool,
    sustained: bool,
    now: int,
    last: int,
    n_keys: int,
)
    ensures
        redraws_of(spec_step(dirty || n_keys > 0, sustained, now, last)) <= 1,
{
}

} // verus!
