//! The registry of Agent runtime launchers, by runtime id.

use vstd::prelude::*;
use vstd::string::StringExecFns;
use crate::context_assembly::{blank, is_blank};
use crate::control_error::{control_error, AgentControlError, AgentControlErrorKind};
use crate::keyed::TextMap;

verus! {

broadcast use vstd::string::group_string_axioms;

/// Launchers by runtime id; an id is registered at most once.
pub struct AgentRuntimeRegistry<L> {
    runtimes: TextMap<L>,
}

impl<L> View for AgentRuntimeRegistry<L> {
    type V = Map<Seq<char>, L>;

    closed spec fn view(&self) -> Map<Seq<char>, L> {
        self.runtimes@
    }
}

/// `prefix` followed by `id`.
fn with_id(prefix: &str, id: &str) -> (text: String)
    ensures
        text@ == prefix@ + id@,
{
    let mut text = prefix.to_owned();
    text.append(id);
    text
}

impl<L> AgentRuntimeRegistry<L> {
    pub closed spec fn wf(&self) -> bool {
        self.runtimes.wf()
    }

    pub fn new() -> (registry: Self)
        ensures
            registry.wf(),
            registry@ == Map::<Seq<char>, L>::empty(),
    {
        AgentRuntimeRegistry { runtimes: TextMap::new() }
    }

    /// Registers `launcher` under `id`: refused for a blank id and for an
    /// id that is already registered.
    pub fn register(&mut self, id: &str, launcher: L) -> (outcome: Result<(), AgentControlError>)
        requires
            old(self).wf(),
        ensures
            final(self).wf(),
            is_blank(id@) ==> (outcome matches Err(e) && e.kind
                == AgentControlErrorKind::InvalidRequest && e.message@
                == "runtime id must not be empty"@ && final(self)@ == old(self)@),
            !is_blank(id@) && old(self)@.contains_key(id@) ==> (outcome matches Err(e) && e.kind
                == AgentControlErrorKind::Conflict && e.message@ == "runtime already registered: "@
                + id@ && final(self)@ == old(self)@),
            !is_blank(id@) && !old(self)@.contains_key(id@) ==> (outcome is Ok && final(self)@
                == old(self)@.insert(id@, launcher)),
    {
        if blank(id) {
            return Err(
                control_error(AgentControlErrorKind::InvalidRequest, "runtime id must not be empty"),
            );
        }
        if self.runtimes.get(id).is_some() {
            let message = with_id("runtime already registered: ", id);
            return Err(AgentControlError { kind: AgentControlErrorKind::Conflict, message });
        }
        self.runtimes.insert(id.to_owned(), launcher);
        Ok(())
    }

    /// The launcher registered under `id`.
    pub fn resolve(&self, id: &str) -> (outcome: Result<&L, AgentControlError>)
        requires
            self.wf(),
        ensures
            self@.contains_key(id@) ==> (outcome matches Ok(l) && *l == self@[id@]),
            !self@.contains_key(id@) ==> (outcome matches Err(e) && e.kind
                == AgentControlErrorKind::NotFound && e.message@ == "runtime is not registered: "@
                + id@),
    {
        match self.runtimes.get(id) {
            Some(launcher) => Ok(launcher),
            None => {
                let message = with_id("runtime is not registered: ", id);
                Err(AgentControlError { kind: AgentControlErrorKind::NotFound, message })
            },
        }
    }
}

} // verus!
