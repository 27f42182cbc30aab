//! The front end of the query service: it admits a bounded number of
//! queries at a time, reads the ticket of each, and frames what the query
//! found.

use vstd::prelude::*;
use std::sync::atomic::{AtomicU64, Ordering};
use std::sync::Arc;
use tokio::sync::{OwnedSemaphorePermit, Semaphore};
use crate::error::{Error, QueryError};
use crate::flight::{encode_response, frames_view, response_frames, Frame, PartitionResponse};
use crate::ticket::{decode_ticket, ticket_request, QueryRequest};

verus! {

/// `tokio::sync::Semaphore`. Nothing is known of the permits it holds:
/// they are taken and given back by the queries that run at the same time.
#[verifier::external_type_specification]
#[verifier::external_body]
pub struct ExSemaphore(Semaphore);

/// `tokio::sync::OwnedSemaphorePermit`: one permit of a semaphore, which
/// goes back to the semaphore when the value is dropped.
#[verifier::external_type_specification]
#[verifier::external_body]
pub struct ExOwnedSemaphorePermit(OwnedSemaphorePermit);

/// The most queries that a service can be made to let in at a time.
pub const MAX_SIMULTANEOUS_REQUESTS: usize = usize::MAX / 8;

/// The number of permits that a semaphore was made with, by
/// `tokio::sync::Semaphore::new`.
pub uninterp spec fn permit_limit(semaphore: Semaphore) -> nat;

/// Makes a semaphore with `permits` permits, by
/// `tokio::sync::Semaphore::new`.
#[verifier::external_body]
fn new_semaphore(permits: usize) -> (res: Arc<Semaphore>)
    requires
        permits <= MAX_SIMULTANEOUS_REQUESTS,
    ensures
        permit_limit(*res) == permits,
{
    Arc::new(Semaphore::new(permits))
}

/// Takes a permit if one is free, without waiting, by
/// `tokio::sync::Semaphore::try_acquire_owned`. Whether one is free depends
/// on the queries that run at the moment; a semaphore that was made without
/// permits has none to give, as nothing here adds permits to a semaphore.
/// A closed semaphore gives none either; nothing here closes one. The
/// permit goes back to the semaphore when it is dropped.
#[verifier::external_body]
fn try_acquire(semaphore: &Arc<Semaphore>) -> (res: Option<OwnedSemaphorePermit>)
    ensures
        permit_limit(**semaphore) == 0 ==> res.is_none(),
{
    semaphore.clone().try_acquire_owned().ok()
}

/// The permit of a query that runs. It goes back to the service when it is
/// dropped, and gives no other access to the permits of the service.
pub struct QueryPermit {
    permit: OwnedSemaphorePermit,
}

/// What a query is admitted with: the request of its ticket, and the permit
/// that it holds until its response is done with.
pub struct AdmittedQuery {
    pub request: QueryRequest,
    pub permit: QueryPermit,
}

/// What the service does with a query that came in.
pub struct Admission {
    /// What the caller is told: the admitted query, or why it was refused.
    pub outcome: Result<AdmittedQuery, Error>,
    /// By how much the count of refused queries grows: by 1 for a query
    /// that is refused for the limit of requests, else by 0.
    pub rejections: u64,
}

/// Decides on a query, given the permit that could be taken for it or
/// `None` if all were taken. Without a permit the query is refused for the
/// limit of requests, whatever its ticket holds, and the refusal is counted.
/// With one, the ticket is read and nothing is counted: a malformed ticket
/// is refused as invalid, and the permit is given back; else the query is
/// admitted and keeps the permit.
pub fn decide_admission(permit: Option<QueryPermit>, ticket: &[u8]) -> (res: Admission)
    ensures
        res.rejections == (if permit.is_none() {
            1u64
        } else {
            0u64
        }),
        permit.is_none() ==> res.outcome == Err::<AdmittedQuery, Error>(Error::RequestLimit),
        permit.is_some() && ticket_request(ticket@).is_none() ==> res.outcome == Err::<AdmittedQuery, Error>(
            Error::InvalidTicket,
        ),
        permit.is_some() && ticket_request(ticket@).is_some() ==> res.outcome.is_ok()
            && res.outcome.unwrap().permit == permit.unwrap() && res.outcome.unwrap().request@
            == ticket_request(ticket@).unwrap(),
{
    match permit {
        None => Admission { outcome: Err(Error::RequestLimit), rejections: 1 },
        Some(permit) => match decode_ticket(ticket) {
            Ok(request) => Admission { outcome: Ok(AdmittedQuery { request, permit }), rejections: 0 },
            Err(e) => Admission { outcome: Err(e), rejections: 0 },
        },
    }
}

/// The front end of the query service.
pub struct FlightService {
    /// Bounds the number of queries that run at a time.
    request_sem: Arc<Semaphore>,
    /// Counts the queries that were refused for the limit.
    query_request_limit_rejected: AtomicU64,
    /// The identity of this service, sent with every partition.
    ingester_id: String,
}

impl FlightService {
    pub closed spec fn spec_ingester_id(&self) -> Seq<char> {
        self.ingester_id@
    }

    /// How many queries the service was made to let in at a time.
    pub closed spec fn spec_capacity(&self) -> nat {
        permit_limit(*self.request_sem)
    }

    /// A service that admits `max_simultaneous_requests` queries at a time.
    pub fn new(ingester_id: String, max_simultaneous_requests: usize) -> (service: FlightService)
        requires
            max_simultaneous_requests <= MAX_SIMULTANEOUS_REQUESTS,
        ensures
            service.spec_ingester_id() == ingester_id@,
            service.spec_capacity() == max_simultaneous_requests,
    {
        FlightService {
            request_sem: new_semaphore(max_simultaneous_requests),
            query_request_limit_rejected: AtomicU64::new(0),
            ingester_id,
        }
    }

    /// The identity of this service.
    pub fn ingester_id(&self) -> (id: &String)
        ensures
            id@ == self.spec_ingester_id(),
    {
        &self.ingester_id
    }

    /// How many queries were refused for the limit so far.
    pub fn rejected_count(&self) -> u64 {
        self.query_request_limit_rejected.load(Ordering::Relaxed)
    }

    /// Takes up a query. It is refused at once, and counted as refused,
    /// when as many queries run as the service admits; it never waits for
    /// one of them to end. A service that was made to let in no query
    /// refuses every query so. Else the ticket is read, and a malformed
    /// ticket is refused as invalid. A query that is admitted holds its
    /// permit until the caller drops it.
    pub fn begin_query(&self, ticket: &[u8]) -> (res: Result<AdmittedQuery, Error>)
        ensures
            self.spec_capacity() == 0 ==> res == Err::<AdmittedQuery, Error>(Error::RequestLimit),
            res.is_ok() ==> ticket_request(ticket@) == Some(res.unwrap().request@),
            res == Err::<AdmittedQuery, Error>(Error::InvalidTicket) ==> ticket_request(ticket@).is_none(),
    {
        let permit = match try_acquire(&self.request_sem) {
            Some(permit) => Some(QueryPermit { permit }),
            None => None,
        };
        let decision = decide_admission(permit, ticket);
        self.query_request_limit_rejected.fetch_add(decision.rejections, Ordering::Relaxed);
        decision.outcome
    }

    /// Frames what a query found, or hands on why it found nothing.
    pub fn complete_query(&self, result: Result<Vec<PartitionResponse>, QueryError>) -> (res: Result<
        Vec<Frame>,
        QueryError,
    >)
        ensures
            match result {
                Ok(partitions) => res.is_ok() && frames_view(res.unwrap()@) == response_frames(
                    partitions@,
                    self.spec_ingester_id(),
                ),
                Err(e) => res == Err::<Vec<Frame>, QueryError>(e),
            },
    {
        match result {
            Ok(partitions) => Ok(encode_response(partitions, self.ingester_id.as_str())),
            Err(e) => Err(e),
        }
    }
}

} // verus!
