//! The unit of record and of broadcast: one user's status value.

use vstd::prelude::*;

verus! {

/// Mathematical model of a [`StatusEvent`]: the two strings it carries.
#[verifier::ext_equal]
pub struct EventView {
    pub user_id: Seq<char>,
    pub status: Seq<char>,
}

/// One accepted status change.  Immutable once constructed: both fields are
/// private and only readable through accessors.
///
/// Invariant: both strings are non-empty (see [`EventView::valid`]); the
/// only constructor, [`StatusEvent::new`], rejects anything else.
#[derive(Debug)]
pub struct StatusEvent {
    user_id: String,
    status: String,
}

impl EventView {
    /// Both strings are non-empty.
    pub open spec fn valid(self) -> bool {
        self.user_id.len() > 0 && self.status.len() > 0
    }
}

impl View for StatusEvent {
    type V = EventView;

    closed spec fn view(&self) -> EventView {
        EventView { user_id: self.user_id@, status: self.status@ }
    }
}

/// Why a status update was refused before touching any store or hub.
#[derive(Debug)]
pub enum InputError {
    /// The user identifier or the status string was empty.
    Empty,
}

impl StatusEvent {
    /// Accepts exactly the pairs whose two strings are both non-empty.
    pub fn new(user_id: String, status: String) -> (r: Result<StatusEvent, InputError>)
        ensures
            match r {
                Ok(e) => e@ == (EventView { user_id: user_id@, status: status@ }) && e@.valid(),
                Err(InputError::Empty) => user_id@.len() == 0 || status@.len() == 0,
            },
            (user_id@.len() > 0 && status@.len() > 0) <==> r is Ok,
    {
        if user_id.as_str().unicode_len() == 0 || status.as_str().unicode_len() == 0 {
            Err(InputError::Empty)
        } else {
            Ok(StatusEvent { user_id, status })
        }
    }

    /// The user this event speaks of.
    pub fn user_id(&self) -> (r: &String)
        ensures
            r@ == self@.user_id,
    {
        &self.user_id
    }

    /// The status value carried by this event.
    pub fn status(&self) -> (r: &String)
        ensures
            r@ == self@.status,
    {
        &self.status
    }

    /// A copy with the same two strings.
    pub fn duplicate(&self) -> (r: StatusEvent)
        ensures
            r@ == self@,
    {
        StatusEvent { user_id: self.user_id.clone(), status: self.status.clone() }
    }
}

} // verus!
