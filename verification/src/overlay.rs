//! Approval requests and the approval overlay state.

use vstd::prelude::*;

use crate::json::JsonValue;

verus! {

/// A request for user approval before executing a tool.
#[derive(Debug, Clone)]
pub struct ApprovalRequest {
    /// Identifier for this request, unique within the loop that issued it.
    pub id: u64,
    /// Name of the tool requesting approval.
    pub tool_name: String,
    /// Description of what the tool will do.
    pub description: String,
    /// Parameters being passed to the tool.
    pub parameters: JsonValue,
    /// Whether this is a destructive operation.
    pub destructive: bool,
}

impl ApprovalRequest {
    /// Create a new approval request under the given identifier.
    pub fn new(id: u64, tool_name: String, description: String, parameters: JsonValue) -> (r: Self)
        ensures
            r.id == id,
            r.tool_name@ == tool_name@,
            r.description@ == description@,
            r.parameters@ == parameters@,
            !r.destructive,
    {
        ApprovalRequest { id, tool_name, description, parameters, destructive: false }
    }

    /// Mark as a destructive operation.
    pub fn destructive(self) -> (r: Self)
        ensures
            r == (ApprovalRequest { destructive: true, ..self }),
    {
        ApprovalRequest { destructive: true, ..self }
    }
}

/// Current selection in the approval overlay.
#[derive(Debug, Clone, Copy, PartialEq, Eq, Structural)]
pub enum ApprovalSelection {
    /// Approve this action.
    Yes,
    /// Deny this action.
    No,
    /// Approve this tool for the rest of the session.
    Always,
}

impl ApprovalSelection {
    /// The selection after this one in the cycle.
    pub open spec fn spec_next(self) -> Self {
        match self {
            ApprovalSelection::Yes => ApprovalSelection::No,
            ApprovalSelection::No => ApprovalSelection::Always,
            ApprovalSelection::Always => ApprovalSelection::Yes,
        }
    }

    /// The selection before this one in the cycle.
    pub open spec fn spec_prev(self) -> Self {
        match self {
            ApprovalSelection::Yes => ApprovalSelection::Always,
            ApprovalSelection::No => ApprovalSelection::Yes,
            ApprovalSelection::Always => ApprovalSelection::No,
        }
    }

    /// The next selection, cycling.
    pub fn next(self) -> (r: Self)
        ensures
            r == self.spec_next(),
    {
        match self {
            ApprovalSelection::Yes => ApprovalSelection::No,
            ApprovalSelection::No => ApprovalSelection::Always,
            ApprovalSelection::Always => ApprovalSelection::Yes,
        }
    }

    /// The previous selection, cycling.
    pub fn prev(self) -> (r: Self)
        ensures
            r == self.spec_prev(),
            r.spec_next() == self,
    {
        match self {
            ApprovalSelection::Yes => ApprovalSelection::Always,
            ApprovalSelection::No => ApprovalSelection::Yes,
            ApprovalSelection::Always => ApprovalSelection::No,
        }
    }
}

/// Approval overlay state.
pub struct ApprovalOverlay {
    /// The request being shown.
    pub request: ApprovalRequest,
    /// Current selection.
    pub selection: ApprovalSelection,
}

impl ApprovalOverlay {
    /// Create a new approval overlay, with approval preselected.
    pub fn new(request: ApprovalRequest) -> (r: Self)
        ensures
            r.request == request,
            r.selection is Yes,
    {
        ApprovalOverlay { request, selection: ApprovalSelection::Yes }
    }

    /// Move the selection left.
    pub fn select_prev(&mut self)
        ensures
            final(self).request == old(self).request,
            final(self).selection == old(self).selection.spec_prev(),
    {
        self.selection = self.selection.prev();
    }

    /// Move the selection right.
    pub fn select_next(&mut self)
        ensures
            final(self).request == old(self).request,
            final(self).selection == old(self).selection.spec_next(),
    {
        self.selection = self.selection.next();
    }

    /// Handle a keyboard shortcut: `y` approves, `n` denies, `a` selects
    /// always-approve and approves; any other key is ignored.
    pub fn handle_shortcut(&mut self, c: char) -> (r: Option<bool>)
        ensures
            final(self).request == old(self).request,
            (c == 'y' || c == 'Y') ==> r == Some(true) && final(self).selection == old(
                self,
            ).selection,
            (c == 'n' || c == 'N') ==> r == Some(false) && final(self).selection == old(
                self,
            ).selection,
            (c == 'a' || c == 'A') ==> r == Some(true) && final(self).selection is Always,
            !(c == 'y' || c == 'Y' || c == 'n' || c == 'N' || c == 'a' || c == 'A') ==> r is None
                && final(self).selection == old(self).selection,
    {
        if c == 'y' || c == 'Y' {
            Some(true)
        } else if c == 'n' || c == 'N' {
            Some(false)
        } else if c == 'a' || c == 'A' {
            self.selection = ApprovalSelection::Always;
            Some(true)
        } else {
            None
        }
    }

    /// Confirm the current selection: the first flag says whether the action
    /// is approved, the second whether the tool is approved for the session.
    pub fn confirm(&self) -> (r: (bool, bool))
        ensures
            self.selection is Yes ==> r == (true, false),
            self.selection is No ==> r == (false, false),
            self.selection is Always ==> r == (true, true),
    {
        match self.selection {
            ApprovalSelection::Yes => (true, false),
            ApprovalSelection::No => (false, false),
            ApprovalSelection::Always => (true, true),
        }
    }
}

} // verus!
