//! The buttons and menus that a poll and a response session show, and the
//! identifiers by which the platform reports their use.

use crate::text::same_text;
use vstd::prelude::*;

verus! {

/// Something a user can press or pick.
#[derive(Clone, Copy, Debug, PartialEq, Eq, Structural)]
pub enum Control {
    /// On the summary: start giving a response.
    Respond,
    /// On the summary: show who chose which date.
    Details,
    /// On the details: start choosing blackout dates.
    Blackout,
    /// In a session: the menu of dates.
    Select,
    /// In a session: choose every offered date.
    SelectAll,
    /// In a session: choose no date.
    ClearAll,
    /// In a session: hand the selection in.
    Submit,
}

/// An identifier that names no control.
#[derive(Clone, Copy, Debug, PartialEq, Eq, Structural)]
pub struct UnknownControl;

impl Control {
    /// The identifier under which the platform reports the control.
    pub open spec fn id(self) -> Seq<char> {
        match self {
            Control::Respond => "response"@,
            Control::Details => "details"@,
            Control::Blackout => "blackout"@,
            Control::Select => "select"@,
            Control::SelectAll => "select_all"@,
            Control::ClearAll => "clear_all"@,
            Control::Submit => "submit"@,
        }
    }

    /// The words shown on the control; the menu shows none.
    pub open spec fn label(self) -> Seq<char> {
        match self {
            Control::Respond => "Add response"@,
            Control::Details => "Show details"@,
            Control::Blackout => "Add blackout dates"@,
            Control::Select => ""@,
            Control::SelectAll => "Select all"@,
            Control::ClearAll => "Clear all"@,
            Control::Submit => "Submit"@,
        }
    }

    /// The identifier of the control.
    pub fn custom_id(self) -> (id: &'static str)
        ensures
            id@ == self.id(),
    {
        match self {
            Control::Respond => "response",
            Control::Details => "details",
            Control::Blackout => "blackout",
            Control::Select => "select",
            Control::SelectAll => "select_all",
            Control::ClearAll => "clear_all",
            Control::Submit => "submit",
        }
    }

    /// The words shown on the control.
    pub fn label_text(self) -> (label: &'static str)
        ensures
            label@ == self.label(),
    {
        match self {
            Control::Respond => "Add response",
            Control::Details => "Show details",
            Control::Blackout => "Add blackout dates",
            Control::Select => "",
            Control::SelectAll => "Select all",
            Control::ClearAll => "Clear all",
            Control::Submit => "Submit",
        }
    }

    /// The control that the platform means by `id`, or an error where `id`
    /// names none.
    pub fn decode(id: &str) -> (found: Result<Control, UnknownControl>)
        ensures
            found matches Ok(control) ==> id@ == control.id(),
            found is Err ==> forall|control: Control| id@ != control.id(),
    {
        if same_text(id, "response") {
            Ok(Control::Respond)
        } else if same_text(id, "details") {
            Ok(Control::Details)
        } else if same_text(id, "blackout") {
            Ok(Control::Blackout)
        } else if same_text(id, "select") {
            Ok(Control::Select)
        } else if same_text(id, "select_all") {
            Ok(Control::SelectAll)
        } else if same_text(id, "clear_all") {
            Ok(Control::ClearAll)
        } else if same_text(id, "submit") {
            Ok(Control::Submit)
        } else {
            Err(UnknownControl)
        }
    }
}

/// No two controls share an identifier, so an identifier names at most one.
pub proof fn lemma_ids_distinct(a: Control, b: Control)
    requires
        a.id() == b.id(),
    ensures
        a == b,
{
    reveal_strlit("response");
    reveal_strlit("details");
    reveal_strlit("blackout");
    reveal_strlit("select");
    reveal_strlit("select_all");
    reveal_strlit("clear_all");
    reveal_strlit("submit");
    assert("response"@[0] == 'r' && "response"@.len() == 8);
    assert("details"@[0] == 'd' && "details"@.len() == 7);
    assert("blackout"@[0] == 'b' && "blackout"@.len() == 8);
    assert("select"@[0] == 's' && "select"@.len() == 6);
    assert("select_all"@[0] == 's' && "select_all"@.len() == 10);
    assert("clear_all"@[0] == 'c' && "clear_all"@.len() == 9);
    assert("submit"@[1] == 'u' && "submit"@.len() == 6);
    assert("select"@[1] == 'e');
}

} // verus!
