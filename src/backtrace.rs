//! Pieces of the panic report: the switch that keeps a panic inside the
//! panic path from printing a second backtrace, and the lookup of the
//! symbols a return address falls into.
use vstd::prelude::*;

verus! {

/// Holds the backtrace switch off while a panic is being reported, and
/// remembers whether it was on.
pub struct BacktraceGuard {
    previous: bool,
}

impl BacktraceGuard {
    pub closed spec fn previous_view(&self) -> bool {
        self.previous
    }

    /// Turns the switch off, remembering its former state.
    pub fn new(switch: &mut bool) -> (g: Self)
        ensures
            g.previous_view() == *old(switch),
            *final(switch) == false,
    {
        let previous = *switch;
        *switch = false;
        BacktraceGuard { previous }
    }

    /// Whether this report may print a backtrace.
    pub fn enabled(self) -> (r: bool)
        ensures
            r == self.previous_view(),
    {
        self.previous
    }

    /// Turns the switch back on if it was on before.
    pub fn release(self, switch: &mut bool)
        ensures
            *final(switch) == (*old(switch) || self.previous_view()),
    {
        if self.previous {
            *switch = true;
        }
    }
}

/// A symbol starting at `value` with `size` bytes covers `addr`, both ends
/// included.
pub open spec fn covers(value: u64, size: u64, addr: u64) -> bool {
    value <= addr <= value + size
}

/// Indices, in ascending order, of the symbols `(value, size)` that cover `addr`.
pub fn symbols_at(symbols: &Vec<(u64, u64)>, addr: u64) -> (r: Vec<usize>)
    ensures
        forall|k: int| 0 <= k < r@.len() ==> #[trigger] r@[k] < symbols@.len(),
        forall|k: int, l: int| 0 <= k < l < r@.len() ==> #[trigger] r@[k] < #[trigger] r@[l],
        forall|i: int|
            0 <= i < symbols@.len() ==> (r@.contains(i as usize) <==> covers(
                #[trigger] symbols@[i].0,
                symbols@[i].1,
                addr,
            )),
{
    let mut out: Vec<usize> = Vec::new();
    let mut i: usize = 0;
    while i < symbols.len()
        invariant
            i <= symbols@.len(),
            forall|k: int| 0 <= k < out@.len() ==> #[trigger] out@[k] < i,
            forall|k: int, l: int| 0 <= k < l < out@.len() ==> #[trigger] out@[k] < #[trigger] out@[l],
            forall|j: int|
                0 <= j < i ==> (out@.contains(j as usize) <==> covers(
                    #[trigger] symbols@[j].0,
                    symbols@[j].1,
                    addr,
                )),
        decreases symbols@.len() - i,
    {
        let (value, size) = symbols[i];
        let ghost before = out@;
        if value <= addr && addr - value <= size {
            out.push(i);
            assert(out@[out@.len() - 1] == i);
        }
        assert forall|j: int|
            0 <= j < i + 1 implies (out@.contains(j as usize) <==> covers(
            #[trigger] symbols@[j].0,
            symbols@[j].1,
            addr,
        )) by {
            if j < i {
                if before.contains(j as usize) {
                    let k = choose|k: int| 0 <= k < before.len() && before[k] == j as usize;
                    assert(out@[k] == j as usize);
                }
                if out@.contains(j as usize) {
                    let k = choose|k: int| 0 <= k < out@.len() && out@[k] == j as usize;
                    if k < before.len() {
                        assert(before[k] == j as usize);
                    }
                }
            } else {
                if out@.contains(j as usize) {
                    let k = choose|k: int| 0 <= k < out@.len() && out@[k] == j as usize;
                    if k < before.len() {
                        assert(before[k] < i);
                    }
                }
            }
        }
        i = i + 1;
    }
    out
}

} // verus!
