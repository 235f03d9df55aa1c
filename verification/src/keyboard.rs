//! The keyboard scheme: the actions a key can trigger, and the trace-mode
//! toggle. Panning and zooming the view are done by the window code.

use vstd::prelude::*;

verus! {

/// Every view or mode change a keypress can trigger.
#[derive(Debug, Clone, Copy, PartialEq, Eq, Structural)]
pub enum KeyAction {
    PanLeft,
    PanRight,
    PanUp,
    PanDown,
    ZoomIn,
    ZoomOut,
    Reset,
    ToggleTrace,
}

/// The `t` key: trace mode flips.
pub fn apply_trace_toggle(trace_mode: bool) -> (r: bool)
    ensures
        r == !trace_mode,
{
    !trace_mode
}

} // verus!
