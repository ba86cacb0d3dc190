//! Edge-triggered input handling for the inspection-mode toggle.
//!
//! The host polls the keyboard once per frame and reports whether the toggle
//! key was just pressed; the functions here fold those reports into the
//! process-wide [`EditorResource`](crate::EditorResource) flag.

use vstd::prelude::*;
use crate::EditorResource;

verus! {

/// How many of the per-frame reports in `presses` were an actual press.
pub open spec fn press_count(presses: Seq<bool>) -> nat
    decreases presses.len(),
{
    if presses.len() == 0 {
        0
    } else {
        press_count(presses.drop_last()) + if presses.last() {
            1nat
        } else {
            0nat
        }
    }
}

/// The toggle's value after folding a sequence of per-frame reports over an
/// initial value: every press flips the flag, a frame without a press leaves
/// it alone.
pub open spec fn toggled(init: bool, presses: Seq<bool>) -> bool
    decreases presses.len(),
{
    if presses.len() == 0 {
        init
    } else if presses.last() {
        !toggled(init, presses.drop_last())
    } else {
        toggled(init, presses.drop_last())
    }
}

/// One frame of the toggle: flip the flag exactly when the toggle key was
/// just pressed this frame, independent of the current value.
pub fn editor_input_system(editor: &mut EditorResource, toggle_just_pressed: bool)
    ensures
        final(editor).0 == (old(editor).0 != toggle_just_pressed),
{
    if toggle_just_pressed {
        editor.0 = !editor.0;
    }
}

/// Fold a whole sequence of per-frame reports into the flag.
pub fn run_toggle_frames(editor: &mut EditorResource, presses: &Vec<bool>)
    ensures
        final(editor).0 == toggled(old(editor).0, presses@),
{
    let ghost init: bool = editor.0;
    let mut i: usize = 0;
    while i < presses.len()
        invariant
            0 <= i <= presses.len(),
            editor.0 == toggled(init, presses@.subrange(0, i as int)),
        decreases presses.len() - i,
    {
        let p = presses[i];
        editor_input_system(editor, p);
        proof {
            assert(presses@.subrange(0, i + 1).drop_last() =~= presses@.subrange(0, i as int));
            assert(presses@.subrange(0, i + 1).last() == p);
        }
        i = i + 1;
    }
    proof {
        assert(presses@.subrange(0, presses@.len() as int) =~= presses@);
    }
}

/// The toggle's value depends only on the parity of the number of presses:
/// it equals the initial value exactly when the press count is even.
pub proof fn lemma_toggle_parity(init: bool, presses: Seq<bool>)
    ensures
        toggled(init, presses) == (init != (press_count(presses) % 2 == 1)),
    decreases presses.len(),
{
    if presses.len() > 0 {
        lemma_toggle_parity(init, presses.drop_last());
    }
}

} // verus!
