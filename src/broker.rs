use vstd::prelude::*;

verus! {

/// The kinds of message broker.
pub enum BrokerType {
    Redis,
}

/// A message broker: where the policy comes from and where logs go.
pub trait BrokerImpl {
    /// The agent's policy document.
    fn get_policy(&self) -> String;

    /// Stores a named value.
    fn log_details(&self, name: String, value: String);

    /// Appends a line to the agent's log.
    fn log(&mut self, msg: String);
}

/// The rest of the agent's view of the broker.
pub struct BrokerProxy<B: BrokerImpl> {
    backend: B,
}

impl<B: BrokerImpl> BrokerProxy<B> {
    /// The broker behind the proxy.
    pub closed spec fn backend(&self) -> B {
        self.backend
    }

    /// A proxy for `backend`, which it holds as given.
    pub fn new(backend: B) -> (r: Self)
        ensures
            r.backend() == backend,
    {
        BrokerProxy { backend }
    }

    pub fn get_policy(&self) -> String {
        self.backend.get_policy()
    }

    pub fn log_details(&self, name: String, value: String) {
        self.backend.log_details(name, value)
    }

    pub fn log(&mut self, msg: String) {
        self.backend.log(msg)
    }
}

} // verus!
