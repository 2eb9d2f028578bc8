//! Pane layout modes and the built-in demonstration panes.
//!
//! A pane is shown in one of six modes. At most one pane occupies the
//! center; promoting a pane to the center demotes whichever pane held
//! it to a window, which [`set_center`] makes good on.

use vstd::prelude::*;

verus! {

/// Where a pane is shown.
#[derive(Clone, Copy, Debug, PartialEq, Eq, Structural)]
pub enum PaneMode {
    Hidden,
    Windowed,
    Right,
    Left,
    Bottom,
    Center,
}

/// A solid-blue demonstration pane; it opens docked on the left.
#[derive(Clone, Copy, Debug, PartialEq, Eq, Structural)]
pub struct BluePane {}

impl BluePane {
    /// The pane's display name.
    pub fn name(&self) -> (r: &'static str)
        ensures
            r@ == "BLUE"@,
    {
        "BLUE"
    }

    /// The mode the pane opens in.
    pub fn default_mode(&self) -> (m: PaneMode)
        ensures
            m == PaneMode::Left,
    {
        PaneMode::Left
    }
}

/// A solid-green demonstration pane; it opens docked at the bottom.
#[derive(Clone, Copy, Debug, PartialEq, Eq, Structural)]
pub struct GreenPane {}

impl GreenPane {
    /// The pane's display name.
    pub fn name(&self) -> (r: &'static str)
        ensures
            r@ == "Green"@,
    {
        "Green"
    }

    /// The mode the pane opens in.
    pub fn default_mode(&self) -> (m: PaneMode)
        ensures
            m == PaneMode::Bottom,
    {
        PaneMode::Bottom
    }
}

/// Make pane `i` the center pane: every pane currently in the center
/// becomes windowed, then pane `i` takes the center. Afterwards the
/// center is held by pane `i` alone.
pub fn set_center(modes: &mut Vec<PaneMode>, i: usize)
    requires
        i < old(modes)@.len(),
    ensures
        final(modes)@.len() == old(modes)@.len(),
        final(modes)@[i as int] == PaneMode::Center,
        forall|j: int|
            0 <= j < old(modes)@.len() && j != i ==> final(modes)@[j] == (if old(modes)@[j]
                == PaneMode::Center {
                PaneMode::Windowed
            } else {
                old(modes)@[j]
            }),
        forall|j: int|
            0 <= j < final(modes)@.len() && final(modes)@[j] == PaneMode::Center ==> j == i,
{
    let n = modes.len();
    let mut k: usize = 0;
    while k < n
        invariant
            0 <= k <= n,
            n == modes@.len() == old(modes)@.len(),
            forall|j: int|
                0 <= j < k ==> modes@[j] == (if old(modes)@[j] == PaneMode::Center {
                    PaneMode::Windowed
                } else {
                    old(modes)@[j]
                }),
            forall|j: int| k <= j < n ==> modes@[j] == old(modes)@[j],
        decreases n - k,
    {
        if matches!(modes[k], PaneMode::Center) {
            modes.set(k, PaneMode::Windowed);
        }
        k = k + 1;
    }
    modes.set(i, PaneMode::Center);
}

} // verus!
