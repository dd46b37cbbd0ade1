//! The acknowledgement that a client gets for a request.

use vstd::prelude::*;
use crate::service::ServiceError;

verus! {

/// What a client is told when its request is done: the data it asked for, or why the
/// request was turned down.
#[derive(Debug, Clone)]
pub enum Ack<T> {
    Success { success: T },
    Error { error: String },
}

impl<T> Ack<T> {
    /// The acknowledgement of an answer: its data where the request went well, the
    /// message of its error where it did not.
    pub fn from(result: Result<T, ServiceError>) -> (ack: Self)
        ensures
            match result {
                Ok(data) => ack == (Ack::Success { success: data }),
                Err(e) => ack matches Ack::Error { error } && error@ == e.spec_message(),
            },
    {
        match result {
            Ok(data) => Ack::Success { success: data },
            Err(e) => Ack::Error { error: e.message() },
        }
    }

    /// The acknowledgement of a refusal that comes with its own words, as when a
    /// request could not be read.
    pub fn refusal(error: String) -> (ack: Self)
        ensures
            ack == (Ack::<T>::Error { error }),
    {
        Ack::Error { error }
    }

    /// Whether the request went well.
    pub fn is_success(&self) -> (r: bool)
        ensures
            r == (self is Success),
    {
        match self {
            Ack::Success { .. } => true,
            Ack::Error { .. } => false,
        }
    }
}

} // verus!
