//! The RPC handle of the proof-of-stake pallet.

use vstd::prelude::*;
use std::marker::PhantomData;
use std::sync::Arc;

verus! {

/// RPC handler for the proof-of-stake runtime API; it holds a shared client.
pub struct ProofOfStake<C, M> {
    client: Arc<C>,
    _marker: PhantomData<M>,
}

impl<C, M> ProofOfStake<C, M> {
    /// The client that the handler serves requests with.
    pub closed spec fn spec_client(&self) -> Arc<C> {
        self.client
    }

    /// Builds a handler around `client`.
    pub fn new(client: Arc<C>) -> (r: Self)
        ensures
            r.spec_client() == client,
    {
        ProofOfStake { client, _marker: PhantomData }
    }

    /// The client that the handler serves requests with.
    pub fn client(&self) -> (r: &Arc<C>)
        ensures
            *r == self.spec_client(),
    {
        &self.client
    }
}

} // verus!
