use vstd::prelude::*;
use crate::text::usize_to_string;

verus! {

/// How execution proceeds under the debugger.
#[derive(Clone, Copy, Debug, PartialEq, Eq, Structural)]
pub enum StepMode {
    /// Run until a breakpoint.
    Continue,
    /// Stop before the next instruction.
    StepIn,
}

/// Breakpoints by source line and the stepping state of a debugged VM.
pub struct DebugContext {
    pub breakpoints: Vec<usize>,
    pub mode: StepMode,
    /// The instruction at which execution last stopped.
    pub paused_at: Option<usize>,
}

impl DebugContext {
    pub fn new() -> (d: DebugContext)
        ensures
            d.breakpoints@.len() == 0,
            d.mode == StepMode::Continue,
            d.paused_at is None,
    {
        DebugContext { breakpoints: Vec::new(), mode: StepMode::Continue, paused_at: None }
    }

    pub fn has_breakpoint(&self, line: usize) -> (b: bool)
        ensures
            b == self.breakpoints@.contains(line),
    {
        let mut i: usize = 0;
        while i < self.breakpoints.len()
            invariant
                i <= self.breakpoints@.len(),
                forall|j: int| 0 <= j < i ==> self.breakpoints@[j] != line,
            decreases self.breakpoints@.len() - i,
        {
            if self.breakpoints[i] == line {
                return true;
            }
            i = i + 1;
        }
        false
    }

    /// Adds a breakpoint on `line`, once.
    pub fn set_breakpoint_line(&mut self, line: usize)
        ensures
            forall|x: usize| #[trigger] final(self).breakpoints@.contains(x) <==> old(self).breakpoints@.contains(x) || x == line,
            final(self).mode == old(self).mode,
            final(self).paused_at == old(self).paused_at,
    {
        if !self.has_breakpoint(line) {
            self.breakpoints.push(line);
            assert forall|x: usize| #[trigger] self.breakpoints@.contains(x) <==> old(self).breakpoints@.contains(x) || x == line by {
                if old(self).breakpoints@.contains(x) {
                    let k = choose|k: int| 0 <= k < old(self).breakpoints@.len() && old(self).breakpoints@[k] == x;
                    assert(self.breakpoints@[k] == x);
                }
                if self.breakpoints@.contains(x) && x != line {
                    let k = choose|k: int| 0 <= k < self.breakpoints@.len() && self.breakpoints@[k] == x;
                    assert(old(self).breakpoints@[k] == x);
                }
                if x == line {
                    assert(self.breakpoints@[self.breakpoints@.len() - 1] == x);
                }
            }
        }
    }

    /// Removes every breakpoint on `line`.
    pub fn remove_breakpoint_line(&mut self, line: usize)
        ensures
            forall|x: usize| #[trigger] final(self).breakpoints@.contains(x) <==> old(self).breakpoints@.contains(x) && x != line,
            final(self).mode == old(self).mode,
            final(self).paused_at == old(self).paused_at,
    {
        let mut kept: Vec<usize> = Vec::new();
        let mut i: usize = 0;
        while i < self.breakpoints.len()
            invariant
                i <= self.breakpoints@.len(),
                forall|x: usize| #[trigger] kept@.contains(x) <==> self.breakpoints@.take(i as int).contains(x) && x != line,
            decreases self.breakpoints@.len() - i,
        {
            let b = self.breakpoints[i];
            let ghost kept0 = kept@;
            if b != line {
                kept.push(b);
            }
            i = i + 1;
            let ghost t = self.breakpoints@.take(i as int);
            let ghost t0 = self.breakpoints@.take(i - 1);
            assert(t =~= t0.push(b));
            assert forall|x: usize| #[trigger] kept@.contains(x) <==> t.contains(x) && x != line by {
                if t.contains(x) {
                    let k = choose|k: int| 0 <= k < t.len() && t[k] == x;
                    if k < t0.len() {
                        assert(t0[k] == x);
                    }
                }
                if t0.contains(x) {
                    let k = choose|k: int| 0 <= k < t0.len() && t0[k] == x;
                    assert(t[k] == x);
                }
                if kept0.contains(x) {
                    let k = choose|k: int| 0 <= k < kept0.len() && kept0[k] == x;
                    assert(kept@[k] == x);
                }
                if kept@.contains(x) {
                    let k = choose|k: int| 0 <= k < kept@.len() && kept@[k] == x;
                    if k < kept0.len() {
                        assert(kept0[k] == x);
                    }
                }
                if b != line && x == b {
                    assert(kept@[kept@.len() - 1] == x);
                    assert(t[t.len() - 1] == x);
                }
            }
        }
        assert(self.breakpoints@.take(i as int) =~= self.breakpoints@);
        self.breakpoints = kept;
    }

    /// Whether to stop before the instruction at `ip` on source line `line`:
    /// always when stepping, otherwise on a breakpoint line unless execution
    /// has just stopped at this same instruction.
    pub fn should_pause(&self, ip: usize, line: usize, frame_depth: usize) -> (b: bool)
        ensures
            b == (self.mode == StepMode::StepIn || (self.breakpoints@.contains(line) && self.paused_at != Some(ip))),
    {
        if self.mode == StepMode::StepIn {
            return true;
        }
        self.has_breakpoint(line) && self.paused_at != Some(ip)
    }

    /// Records a stop at `ip`; a step is used up by stopping.
    pub fn mark_paused(&mut self, ip: usize)
        ensures
            final(self).paused_at == Some(ip),
            final(self).mode == StepMode::Continue,
            final(self).breakpoints@ == old(self).breakpoints@,
    {
        self.paused_at = Some(ip);
        self.mode = StepMode::Continue;
    }

    pub fn resume(&mut self)
        ensures
            final(self).mode == StepMode::Continue,
            final(self).paused_at == old(self).paused_at,
            final(self).breakpoints@ == old(self).breakpoints@,
    {
        self.mode = StepMode::Continue;
    }

    pub fn step_in(&mut self)
        ensures
            final(self).mode == StepMode::StepIn,
            final(self).paused_at == old(self).paused_at,
            final(self).breakpoints@ == old(self).breakpoints@,
    {
        self.mode = StepMode::StepIn;
    }

    /// The breakpoints as decimal line numbers, in the order they were set.
    pub fn list_breakpoints(&self) -> (r: Vec<String>)
        ensures
            r@.len() == self.breakpoints@.len(),
            forall|i: int| 0 <= i < r@.len() ==> (#[trigger] r@[i])@ == crate::text::nat_digits(self.breakpoints@[i] as nat),
    {
        let mut r: Vec<String> = Vec::new();
        let mut i: usize = 0;
        while i < self.breakpoints.len()
            invariant
                i <= self.breakpoints@.len(),
                r@.len() == i,
                forall|j: int| 0 <= j < i ==> (#[trigger] r@[j])@ == crate::text::nat_digits(self.breakpoints@[j] as nat),
            decreases self.breakpoints@.len() - i,
        {
            r.push(usize_to_string(self.breakpoints[i]));
            i = i + 1;
        }
        r
    }
}

} // verus!
