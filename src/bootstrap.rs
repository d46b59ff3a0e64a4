//! Choosing the contact a client bootstraps to: connections go out to every configured
//! contact at once, the first that answers wins, and later ones are let go.
use vstd::prelude::*;
use crate::bytes::{copy_bytes, position, seqs_of, first_index};

verus! {

/// What the transport reports about a contact.
#[derive(Debug)]
pub enum BootstrapEvent {
    /// A connection to the contact at this address succeeded.
    ConnectedTo(Vec<u8>),
    /// A connection to the contact at this address failed.
    ConnectionFailure(Vec<u8>),
}

/// What to do after an event.
#[derive(Debug, PartialEq, Eq)]
pub enum BootstrapAction {
    /// We are bootstrapped to the contact with this index.
    BootstrappedTo(usize),
    /// Close the surplus connection to the contact with this index.
    Disconnect(usize),
    /// Every contact failed.
    BootstrapFailure,
    /// Nothing to do.
    Nothing,
}

/// The state of a bootstrap attempt.
#[derive(Debug)]
pub struct Bootstrap {
    /// The configured contacts' addresses.
    pub contacts: Vec<Vec<u8>>,
    /// Which contacts failed.
    pub failed: Vec<bool>,
    /// The contact we bootstrapped to.
    pub chosen: Option<usize>,
    /// Whether failure was reported.
    pub gave_up: bool,
}

impl Bootstrap {
    pub open spec fn wf(&self) -> bool {
        &&& self.failed@.len() == self.contacts@.len()
        &&& self.chosen matches Some(i) ==> i < self.contacts@.len()
    }

    /// Whether every contact failed.
    pub open spec fn all_failed(&self) -> bool {
        forall|i: int| 0 <= i < self.failed@.len() ==> self.failed@[i]
    }

    /// Starts an attempt over `contacts`, all of which are to be connected to.
    pub fn new(contacts: Vec<Vec<u8>>) -> (r: Self)
        ensures
            r.wf(),
            r.chosen is None,
            !r.gave_up,
            seqs_of(r.contacts@) == seqs_of(contacts@),
            forall|i: int| 0 <= i < r.failed@.len() ==> !r.failed@[i],
    {
        let mut failed: Vec<bool> = Vec::new();
        let mut i: usize = 0;
        while i < contacts.len()
            invariant
                i <= contacts@.len(),
                failed@.len() == i,
                forall|j: int| 0 <= j < i ==> !failed@[j],
            decreases contacts@.len() - i,
        {
            failed.push(false);
            i = i + 1;
        }
        Bootstrap { contacts, failed, chosen: None, gave_up: false }
    }

    /// Handles a transport event. The first contact that connects is chosen, and is reported
    /// once; a contact that connects later is let go. Failure is reported once every
    /// contact failed and none was chosen. Events about unknown addresses are ignored.
    pub fn handle(&mut self, event: BootstrapEvent) -> (r: BootstrapAction)
        requires
            old(self).wf(),
        ensures
            final(self).wf(),
            seqs_of(final(self).contacts@) == seqs_of(old(self).contacts@),
            old(self).chosen is Some ==> final(self).chosen == old(self).chosen,
            r matches BootstrapAction::BootstrappedTo(i) ==> (old(self).chosen is None && final(self).chosen == Some(i)
                && (event matches BootstrapEvent::ConnectedTo(a) && first_index(seqs_of(old(self).contacts@), a@) == Some(i as int))),
            (event matches BootstrapEvent::ConnectedTo(a) && old(self).chosen is None && seqs_of(old(self).contacts@).contains(a@))
                ==> r is BootstrappedTo,
            r is BootstrapFailure ==> final(self).chosen is None && final(self).all_failed() && !old(self).gave_up && final(self).gave_up,
            old(self).gave_up ==> final(self).gave_up,
            event matches BootstrapEvent::ConnectionFailure(a) ==> match first_index(seqs_of(old(self).contacts@), a@) {
                Some(i) => final(self).failed@ == old(self).failed@.update(i, true)
                    && ((old(self).chosen is None && !old(self).gave_up && final(self).all_failed()) <==> r is BootstrapFailure),
                None => r is Nothing && final(self).failed@ == old(self).failed@,
            },
            event matches BootstrapEvent::ConnectedTo(a) ==> match first_index(seqs_of(old(self).contacts@), a@) {
                Some(i) => old(self).chosen is Some ==> r == BootstrapAction::Disconnect(i as usize),
                None => r is Nothing,
            },
            event is ConnectedTo ==> final(self).failed@ == old(self).failed@,
    {
        match event {
            BootstrapEvent::ConnectedTo(addr) => {
                let i = match position(&self.contacts, addr.as_slice()) {
                    Some(i) => i,
                    None => return BootstrapAction::Nothing,
                };
                proof {
                    crate::bytes::lemma_first_index_some(seqs_of(self.contacts@), addr@);
                }
                if self.chosen.is_none() {
                    self.chosen = Some(i);
                    BootstrapAction::BootstrappedTo(i)
                } else {
                    BootstrapAction::Disconnect(i)
                }
            },
            BootstrapEvent::ConnectionFailure(addr) => {
                let i = match position(&self.contacts, addr.as_slice()) {
                    Some(i) => i,
                    None => return BootstrapAction::Nothing,
                };
                proof {
                    crate::bytes::lemma_first_index_some(seqs_of(self.contacts@), addr@);
                }
                self.failed.set(i, true);
                if self.chosen.is_none() && !self.gave_up && self.all_failed_exec() {
                    self.gave_up = true;
                    BootstrapAction::BootstrapFailure
                } else {
                    BootstrapAction::Nothing
                }
            },
        }
    }

    fn all_failed_exec(&self) -> (r: bool)
        ensures
            r == self.all_failed(),
    {
        let mut i: usize = 0;
        while i < self.failed.len()
            invariant
                i <= self.failed@.len(),
                forall|j: int| 0 <= j < i ==> self.failed@[j],
            decreases self.failed@.len() - i,
        {
            if !self.failed[i] {
                return false;
            }
            i = i + 1;
        }
        true
    }

    /// The address of a contact.
    pub fn contact(&self, i: usize) -> (r: Vec<u8>)
        requires
            i < self.contacts@.len(),
        ensures
            r@ == self.contacts@[i as int]@,
    {
        copy_bytes(self.contacts[i].as_slice())
    }
}

} // verus!
