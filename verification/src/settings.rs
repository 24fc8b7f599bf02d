use vstd::prelude::*;

verus! {

/// Which pointer interactions the widget reacts to.
#[derive(Clone, Copy, Debug, PartialEq, Eq, Structural)]
pub struct SettingsInteraction {
    /// Nodes react to clicks.
    pub node_click: bool,
    /// A click selects or deselects the node under the pointer.
    pub node_select: bool,
    /// A click adds to the selection instead of replacing it.
    pub node_multiselect: bool,
    /// Nodes can be dragged.
    pub node_drag: bool,
    /// How far a selection spreads: a positive depth follows outgoing edges
    /// for that many hops and marks children, a negative depth follows
    /// incoming edges for its magnitude and marks parents, zero spreads
    /// nowhere.
    pub selection_depth: i32,
}

/// Which navigation inputs the widget reacts to.
#[derive(Clone, Copy, Debug, PartialEq, Eq, Structural)]
pub struct SettingsNavigation {
    /// Every frame snaps the view to the graph's bounds.
    pub fit_to_screen: bool,
    /// Scroll zooms and a drag on empty space pans.
    pub zoom_and_pan: bool,
}

impl Default for SettingsInteraction {
    fn default() -> (s: SettingsInteraction)
        ensures
            s == (SettingsInteraction {
                node_click: false,
                node_select: false,
                node_multiselect: false,
                node_drag: false,
                selection_depth: 0,
            }),
    {
        SettingsInteraction {
            node_click: false,
            node_select: false,
            node_multiselect: false,
            node_drag: false,
            selection_depth: 0,
        }
    }
}

impl Default for SettingsNavigation {
    fn default() -> (s: SettingsNavigation)
        ensures
            s == (SettingsNavigation { fit_to_screen: true, zoom_and_pan: false }),
    {
        SettingsNavigation { fit_to_screen: true, zoom_and_pan: false }
    }
}

} // verus!
