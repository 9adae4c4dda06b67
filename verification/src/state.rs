//! Shared request state: the API configuration and the one mutable
//! system message that any request may read or overwrite. Callers that
//! share one value across threads put it behind a lock of their own;
//! these methods are the race-free core they guard.

use vstd::prelude::*;
use vstd::string::StringExecFns;

verus! {

/// One chat message as the caller hands it in. Roles are not validated
/// here; an invalid one surfaces as a transport error.
#[derive(Debug, Clone)]
pub struct Message {
    pub role: String,
    pub content: String,
}

/// The relay's state: the credential and endpoint every request uses,
/// and the current system message.
pub struct DeepseekState {
    pub api_key: String,
    pub base_url: String,
    pub system_message: String,
}

impl DeepseekState {
    /// A fresh state carrying the given credential, the fixed API
    /// endpoint, and an empty system message.
    pub fn new(api_key: String) -> (s: DeepseekState)
        ensures
            s.api_key == api_key,
            s.base_url@ == "https://api.deepseek.com"@,
            s.system_message@ == Seq::<char>::empty(),
    {
        DeepseekState {
            api_key,
            base_url: String::from_str("https://api.deepseek.com"),
            system_message: String::new(),
        }
    }

    /// Reads the current system message.
    pub fn get_system_message(&self) -> (m: String)
        ensures
            m@ == self.system_message@,
    {
        self.system_message.clone()
    }

    /// Overwrites the system message; nothing else changes.
    pub fn update_system_message(&mut self, new_message: String)
        ensures
            final(self).system_message@ == new_message@,
            final(self).api_key == old(self).api_key,
            final(self).base_url == old(self).base_url,
    {
        self.system_message = new_message;
    }
}

} // verus!
