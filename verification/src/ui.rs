//! The decisions of the attractor panel: which attractor is selected, which
//! one is removed, and which one the panel edits in a frame. Attractors are
//! named by the bits of their entity.
use vstd::prelude::*;

verus! {

/// The selection of the attractor panel.
pub struct AttractorSelection {
    pub selected_attractor: Option<u64>,
}

/// What the user did in the attractor panel during one frame.
pub struct PanelInput {
    /// The attractor spawned because "+" was pressed, if it was.
    pub added: Option<u64>,
    /// Whether "-" was pressed (it can only be pressed while an attractor is
    /// selected).
    pub remove_clicked: bool,
    /// The attractor picked from the drop-down list, if one was.
    pub picked: Option<u64>,
}

/// What the panel does in that frame.
pub struct PanelOutput {
    /// The attractor to despawn.
    pub despawn: Option<u64>,
    /// The attractor whose position, mode and strength the panel shows for
    /// editing; none when nothing is selected.
    pub edited: Option<u64>,
}

impl AttractorSelection {
    /// The selection after the remove button and the drop-down list, while
    /// the frame is drawn.
    pub open spec fn during_frame(self, input: PanelInput) -> Option<u64> {
        if input.picked is Some {
            input.picked
        } else if input.remove_clicked {
            None
        } else {
            self.selected_attractor
        }
    }

    /// One frame of the panel. "+" spawns an attractor whose selection is
    /// deferred to the end of the frame, so that the panel never edits an
    /// entity that does not exist yet; "-" despawns the selected attractor
    /// and clears the selection; a pick from the list selects that
    /// attractor; the panel then edits the selected attractor, if any.
    pub fn attractor_panel(&mut self, input: PanelInput) -> (output: PanelOutput)
        ensures
            output.despawn == (if input.remove_clicked {
                old(self).selected_attractor
            } else {
                None
            }),
            output.edited == old(self).during_frame(input),
            final(self).selected_attractor == (if input.added is Some {
                input.added
            } else {
                old(self).during_frame(input)
            }),
            // a pick from the list selects that attractor and shows its editor,
            // whatever was selected before
            input.picked matches Some(p) ==> output.edited == Some(p),
            input.added is None && input.picked is Some ==> final(self).selected_attractor
                == input.picked,
            // an attractor added this frame is selected once the frame is drawn
            input.added matches Some(a) ==> final(self).selected_attractor == Some(a),
            // without a pick, "-" clears the selection and nothing is edited
            input.picked is None && input.remove_clicked ==> output.edited is None,
            input.picked is None && input.remove_clicked && input.added is None
                ==> final(self).selected_attractor is None,
            // without a pick or "-", the selection stays and is edited
            input.picked is None && !input.remove_clicked ==> output.edited
                == old(self).selected_attractor,
            input.picked is None && !input.remove_clicked && input.added is None
                ==> final(self).selected_attractor == old(self).selected_attractor,
    {
        let mut despawn: Option<u64> = None;
        if input.remove_clicked {
            if let Some(selected) = self.selected_attractor {
                despawn = Some(selected);
                self.selected_attractor = None;
            }
        }
        if let Some(picked) = input.picked {
            self.selected_attractor = Some(picked);
        }
        let edited = self.selected_attractor;
        if let Some(added) = input.added {
            self.selected_attractor = Some(added);
        }
        PanelOutput { despawn, edited }
    }

    /// Whether the attractor `id` is the selected one (it is then drawn
    /// highlighted).
    pub fn is_selected(&self, id: u64) -> (selected: bool)
        ensures
            selected == (self.selected_attractor == Some(id)),
    {
        match self.selected_attractor {
            Some(s) => s == id,
            None => false,
        }
    }
}

impl Default for AttractorSelection {
    /// Nothing is selected at start-up.
    fn default() -> (selection: Self)
        ensures
            selection.selected_attractor is None,
    {
        AttractorSelection { selected_attractor: None }
    }
}

/// The panel never edits the attractor created in the same frame: a new
/// attractor (one that is neither the selected one nor the one picked) is
/// selected only once the frame has been drawn.
pub proof fn lemma_new_attractor_not_edited(
    selection: AttractorSelection,
    input: PanelInput,
    added: u64,
)
    requires
        input.added == Some(added),
        selection.selected_attractor != Some(added),
        input.picked != Some(added),
    ensures
        selection.during_frame(input) != Some(added),
{
}

/// A pick from the list wins: whatever was selected, and whether or not
/// "-" was pressed, the picked attractor is the one edited in the frame.
pub proof fn lemma_pick_selects(selection: AttractorSelection, input: PanelInput, picked: u64)
    requires
        input.picked == Some(picked),
    ensures
        selection.during_frame(input) == Some(picked),
{
}

/// A frame in which nothing happens keeps the selection and edits it.
pub proof fn lemma_idle_frame_keeps_selection(selection: AttractorSelection, input: PanelInput)
    requires
        input.picked is None,
        !input.remove_clicked,
    ensures
        selection.during_frame(input) == selection.selected_attractor,
{
}

/// A removed attractor stays unselected: after a frame in which "-" was
/// pressed and nothing was added or picked, nothing is selected.
pub proof fn lemma_removed_attractor_unselected(selection: AttractorSelection, input: PanelInput)
    requires
        input.remove_clicked,
        input.added is None,
        input.picked is None,
    ensures
        selection.during_frame(input) is None,
{
}

} // verus!
