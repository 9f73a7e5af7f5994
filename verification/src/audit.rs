//! Append-only log of security-relevant actions.
use vstd::prelude::*;

verus! {

/// One audited action.
#[derive(Debug, Clone, PartialEq, Eq)]
pub struct AuditEvent {
    pub actor: String,
    pub action: String,
    pub allowed: bool,
    pub detail: String,
}

/// The events recorded so far, oldest first.
#[derive(Debug)]
pub struct AuditLog {
    events: Vec<AuditEvent>,
}

impl View for AuditLog {
    type V = Seq<AuditEvent>;

    closed spec fn view(&self) -> Seq<AuditEvent> {
        self.events@
    }
}

impl Default for AuditLog {
    fn default() -> (r: Self)
        ensures
            r@ == Seq::<AuditEvent>::empty(),
    {
        AuditLog { events: Vec::new() }
    }
}

impl AuditLog {
    /// Appends `event`.
    pub fn push(&mut self, event: AuditEvent)
        ensures
            final(self)@ == old(self)@.push(event),
    {
        self.events.push(event);
    }

    /// The recorded events, oldest first.
    pub fn events(&self) -> (r: &[AuditEvent])
        ensures
            r@ == self@,
    {
        self.events.as_slice()
    }
}

} // verus!
