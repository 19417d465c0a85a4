//! Click-through session state.
//!
//! The viewer walks a user through the resonators one by one: a click on a
//! plotted IQ point records the bias choice for the currently selected
//! resonator and moves the selection to the next one. Recorded choices are
//! never removed; a later click on the same resonator replaces its entry and
//! leaves every other entry as it was.

use std::collections::HashMap;
use vstd::prelude::*;

verus! {

broadcast use vstd::std_specs::hash::group_hash_axioms;

/// A bias choice for one resonator, as indices into the sweep grid: which
/// output-attenuation setting and which frequency step were clicked.
#[derive(Clone, Copy, PartialEq, Eq, Structural, Debug)]
pub struct BiasChoice {
    pub output_atten: usize,
    pub freq: usize,
}

/// The session state: the selected resonator, the recorded bias choices,
/// and which of the two auxiliary views are shown.
pub struct ClickState {
    pub resonator: usize,
    pub settings: HashMap<usize, BiasChoice>,
    pub show_mag: bool,
    pub show_settings: bool,
}

impl ClickState {
    /// A fresh session: no choices recorded, the first resonator selected,
    /// the magnitude plot shown and the settings window hidden.
    pub fn new() -> (s: ClickState)
        ensures
            s.resonator == 0,
            s.settings@ == Map::<usize, BiasChoice>::empty(),
            s.show_mag,
            !s.show_settings,
    {
        ClickState { resonator: 0, settings: HashMap::new(), show_mag: true, show_settings: false }
    }

    /// Records `choice` for the selected resonator and advances the
    /// selection to the next one. Other recorded entries are untouched.
    pub fn record_click(&mut self, choice: BiasChoice)
        requires
            old(self).resonator < usize::MAX,
        ensures
            final(self).settings@ == old(self).settings@.insert(old(self).resonator, choice),
            final(self).resonator == old(self).resonator + 1,
            final(self).show_mag == old(self).show_mag,
            final(self).show_settings == old(self).show_settings,
    {
        self.settings.insert(self.resonator, choice);
        self.resonator = self.resonator + 1;
    }

    /// Shows the settings window if it is hidden, and hides it if shown.
    pub fn toggle_settings(&mut self)
        ensures
            final(self).show_settings == !old(self).show_settings,
            final(self).show_mag == old(self).show_mag,
            final(self).resonator == old(self).resonator,
            final(self).settings@ == old(self).settings@,
    {
        self.show_settings = !self.show_settings;
    }

    /// The choice recorded for resonator `r`, if any.
    pub fn setting_for(&self, r: usize) -> (res: Option<&BiasChoice>)
        ensures
            match res {
                Some(c) => self.settings@.contains_key(r) && *c == self.settings@[r],
                None => !self.settings@.contains_key(r),
            },
    {
        self.settings.get(&r)
    }
}

/// Recorded choices grow monotonically: a click adds or replaces the entry
/// of the clicked resonator and removes nothing, so every resonator recorded
/// before is still recorded after, with its choice unchanged unless it was
/// the one clicked, and the recorded set never shrinks.
pub proof fn lemma_click_preserves_settings(
    before: Map<usize, BiasChoice>,
    after: Map<usize, BiasChoice>,
    r: usize,
    c: BiasChoice,
)
    requires
        after == before.insert(r, c),
        before.dom().finite(),
    ensures
        after.contains_key(r) && after[r] == c,
        forall|k: usize| before.contains_key(k) ==> after.contains_key(k),
        forall|k: usize| before.contains_key(k) && k != r ==> after[k] == before[k],
        after.len() >= before.len(),
{
    if before.contains_key(r) {
        assert(after.dom() =~= before.dom());
    } else {
        assert(after.dom() =~= before.dom().insert(r));
        vstd::set::axiom_set_insert_len(before.dom(), r);
    }
}

} // verus!
