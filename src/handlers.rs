//! Values exchanged with the HTTP layer: the error body of a failed request
//! and the terms of a catalog search.

use vstd::prelude::*;

use crate::install::{QueueError, StorageError};

verus! {

/// The body of a failed request: a human-readable message.
pub struct ServiceError(String);

impl View for ServiceError {
    type V = Seq<char>;

    closed spec fn view(&self) -> Seq<char> {
        self.0@
    }
}

/// The message for a refused enqueue.
pub open spec fn queue_error_text(e: QueueError) -> Seq<char> {
    match e {
        QueueError::QueueClosed => "sending on a closed channel"@,
    }
}

/// The message for a failed lookup in the server store.
pub open spec fn storage_error_text(e: StorageError) -> Seq<char> {
    match e {
        StorageError::NotFound => "Record not found"@,
        StorageError::Backend(msg) => msg@,
    }
}

impl ServiceError {
    pub fn new(message: &str) -> (r: ServiceError)
        ensures
            r@ == message@,
    {
        ServiceError(String::from_str(message))
    }

    pub fn from_queue(e: QueueError) -> (r: ServiceError)
        ensures
            r@ == queue_error_text(e),
    {
        match e {
            QueueError::QueueClosed => ServiceError::new("sending on a closed channel"),
        }
    }

    pub fn from_storage(e: StorageError) -> (r: ServiceError)
        ensures
            r@ == storage_error_text(e),
    {
        match e {
            StorageError::NotFound => ServiceError::new("Record not found"),
            StorageError::Backend(msg) => ServiceError(msg),
        }
    }

    pub fn message(&self) -> (r: &str)
        ensures
            r@ == self@,
    {
        self.0.as_str()
    }
}

/// The terms of a catalog search.
pub struct SearchTerms<'a> {
    term: &'a str,
}

impl<'a> SearchTerms<'a> {
    pub closed spec fn term_spec(&self) -> Seq<char> {
        self.term@
    }

    pub fn new(term: &'a str) -> (r: SearchTerms<'a>)
        ensures
            r.term_spec() == term@,
    {
        SearchTerms { term }
    }

    pub fn term(&self) -> (r: &'a str)
        ensures
            r@ == self.term_spec(),
    {
        self.term
    }
}

} // verus!
