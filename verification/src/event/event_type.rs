use crate::types::key::Key;
use vstd::prelude::*;
use vstd::string::*;

verus! {

/// Stable reference to one exact event type version.
#[derive(Debug)]
pub struct EventTypeRef {
    pub key: Key,
    pub version: u32,
}

impl Clone for EventTypeRef {
    fn clone(&self) -> (r: Self)
        ensures
            r == *self,
    {
        EventTypeRef { key: self.key.clone(), version: self.version }
    }
}

#[derive(Clone, Copy, Debug, PartialEq, Eq, Structural)]
pub enum EventTypeRefError {
    ZeroVersion,
}

impl EventTypeRefError {
    pub fn message(&self) -> (r: String)
        ensures
            r@ == "event type version must be at least 1"@,
    {
        String::from_str("event type version must be at least 1")
    }
}

impl EventTypeRef {
    /// Versions start at 1.
    pub fn new(key: Key, version: u32) -> (r: Result<Self, EventTypeRefError>)
        ensures
            match r {
                Ok(t) => version != 0 && t.key == key && t.version == version,
                Err(e) => version == 0 && e == EventTypeRefError::ZeroVersion,
            },
    {
        if version == 0 {
            Err(EventTypeRefError::ZeroVersion)
        } else {
            Ok(EventTypeRef { key, version })
        }
    }
}

} // verus!
