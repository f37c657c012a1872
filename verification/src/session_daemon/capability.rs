//! Which capabilities a connection may hold.
use vstd::prelude::*;
use crate::session_protocol::{has_capability, ClientCapability};

verus! {

#[derive(Debug, Clone, Copy, PartialEq, Eq, Structural)]
pub enum ConnectionTrust {
    LocalOwner,
    RemotePaired,
}

/// What a connection is allowed, by where it came from.
#[derive(Debug, PartialEq, Eq)]
pub struct CapabilityPolicy {
    pub allowed: Vec<ClientCapability>,
    pub trust: ConnectionTrust,
}

/// The requested capabilities that are allowed, each once, in the order asked.
pub open spec fn granted(requested: Seq<ClientCapability>, allowed: Seq<ClientCapability>) -> Seq<
    ClientCapability,
>
    decreases requested.len(),
{
    if requested.len() == 0 {
        Seq::empty()
    } else {
        let earlier = granted(requested.drop_last(), allowed);
        if allowed.contains(requested.last()) && !earlier.contains(requested.last()) {
            earlier.push(requested.last())
        } else {
            earlier
        }
    }
}

impl CapabilityPolicy {
    /// The policy of the daemon's own user: every capability.
    pub fn local_trusted() -> (policy: Self)
        ensures
            policy.trust == ConnectionTrust::LocalOwner,
            forall|capability: ClientCapability| #[trigger]
                policy.allowed@.contains(capability),
    {
        let mut allowed: Vec<ClientCapability> = Vec::new();
        allowed.push(ClientCapability::Observe);
        allowed.push(ClientCapability::Prompt);
        allowed.push(ClientCapability::Configure);
        allowed.push(ClientCapability::Interrupt);
        allowed.push(ClientCapability::Stop);
        allowed.push(ClientCapability::ApproveOnce);
        allowed.push(ClientCapability::ApproveAlways);
        assert forall|capability: ClientCapability| #[trigger] allowed@.contains(capability) by {
            assert(allowed@[0] == ClientCapability::Observe);
            assert(allowed@[1] == ClientCapability::Prompt);
            assert(allowed@[2] == ClientCapability::Configure);
            assert(allowed@[3] == ClientCapability::Interrupt);
            assert(allowed@[4] == ClientCapability::Stop);
            assert(allowed@[5] == ClientCapability::ApproveOnce);
            assert(allowed@[6] == ClientCapability::ApproveAlways);
        }
        CapabilityPolicy { allowed, trust: ConnectionTrust::LocalOwner }
    }

    /// The policy of a paired device: the capabilities that it was given.
    pub fn allowing(capabilities: Vec<ClientCapability>) -> (policy: Self)
        ensures
            policy.trust == ConnectionTrust::RemotePaired,
            policy.allowed == capabilities,
    {
        CapabilityPolicy { allowed: capabilities, trust: ConnectionTrust::RemotePaired }
    }

    pub fn grant(&self, requested: &Vec<ClientCapability>) -> (capabilities: Vec<ClientCapability>)
        ensures
            capabilities@ == granted(requested@, self.allowed@),
    {
        let mut capabilities: Vec<ClientCapability> = Vec::new();
        let mut i: usize = 0;
        while i < requested.len()
            invariant
                i <= requested@.len(),
                capabilities@ == granted(requested@.take(i as int), self.allowed@),
            decreases requested@.len() - i,
        {
            assert(requested@.take(i + 1).drop_last() =~= requested@.take(i as int));
            let capability = requested[i];
            if has_capability(self.allowed.as_slice(), capability) && !has_capability(
                capabilities.as_slice(),
                capability,
            ) {
                capabilities.push(capability);
            }
            i = i + 1;
        }
        assert(requested@.take(i as int) =~= requested@);
        capabilities
    }
}

/// What is granted is what was asked for and is allowed, and nothing twice.
pub proof fn law_grants_are_requested_and_allowed(
    requested: Seq<ClientCapability>,
    allowed: Seq<ClientCapability>,
)
    ensures
        forall|capability: ClientCapability| #[trigger]
            granted(requested, allowed).contains(capability) <==> requested.contains(capability)
                && allowed.contains(capability),
        granted(requested, allowed).no_duplicates(),
    decreases requested.len(),
{
    if requested.len() > 0 {
        law_grants_are_requested_and_allowed(requested.drop_last(), allowed);
        let earlier = granted(requested.drop_last(), allowed);
        let now = granted(requested, allowed);
        let last = requested.last();
        assert(requested =~= requested.drop_last().push(last));
        assert forall|capability: ClientCapability| #[trigger]
            now.contains(capability) <==> requested.contains(capability) && allowed.contains(
                capability,
            ) by {
            if requested.drop_last().contains(capability) {
                let at = requested.drop_last().index_of(capability);
                assert(requested[at] == capability);
            }
            if earlier.contains(capability) {
                let at = earlier.index_of(capability);
                assert(now[at] == capability);
            }
            if capability == last {
                assert(requested[requested.len() - 1] == last);
                if allowed.contains(last) && !earlier.contains(last) {
                    assert(now[earlier.len() as int] == last);
                }
            } else if requested.contains(capability) {
                let at = requested.index_of(capability);
                assert(requested.drop_last()[at] == capability);
            }
        }
    }
}

} // verus!
