use crate::catalog::{Catalog, Descriptor, FlightInfo};
use crate::error::FlightError;
use crate::source::SourceRun;
use crate::stream::{adapts, encode_run, OutgoingStream};
use crate::data::batch_models;
use vstd::prelude::*;

verus! {

/// The protocol surface: the fixed table of verbs over one catalog. Two
/// verbs do work — listing the catalog's datasets and serving data for a
/// ticket. Every other verb returns the explicit unimplemented error at
/// once, before touching any request payload, rather than hanging or
/// failing silently. The catalog is injected once at construction and only
/// read afterwards.
pub struct MyFlightServer {
    pub catalog: Catalog,
}

impl MyFlightServer {
    pub fn new(catalog: Catalog) -> (r: MyFlightServer)
        ensures
            r.catalog == catalog,
    {
        MyFlightServer { catalog }
    }

    /// "list datasets": one discovery record per registered dataset, in
    /// registration order, as a finite stream.
    pub fn list_flights(&self) -> (r: Vec<FlightInfo>)
        requires
            self.catalog.wf(),
        ensures
            r@.len() == self.catalog.models().len(),
            forall|i: int|
                0 <= i < r@.len() ==> (#[trigger] r@[i]).model() == crate::catalog::info_of(
                    self.catalog.models()[i],
                ) && r@[i].wf(),
    {
        self.catalog.list()
    }

    /// "get data", first half: resolve the ticket before anything is
    /// emitted. An unknown ticket is refused with `NotFound` and no
    /// message is produced for it.
    pub fn resolve_do_get(&self, ticket: &Vec<u8>) -> (r: Result<usize, FlightError>)
        ensures
            (r is Ok) == (exists|i: int|
                0 <= i < self.catalog.models().len() && (#[trigger] self.catalog.models()[
                    i
                ]).ticket == ticket@),
            r matches Ok(i) ==> i < self.catalog.models().len() && self.catalog.models()[
                i as int
            ].ticket == ticket@,
            r matches Err(e) ==> e is NotFound,
    {
        self.catalog.resolve_ticket(ticket)
    }

    /// "get data", second half: everything the ticket's batch source
    /// produced, encoded behind the schema message as one outgoing stream.
    /// An unknown ticket is refused with `NotFound` before any message
    /// exists; otherwise the stream adapter's guarantee holds against the
    /// resolved dataset's schema.
    pub fn do_get(&self, ticket: &Vec<u8>, run: &SourceRun) -> (r: Result<
        OutgoingStream,
        FlightError,
    >)
        requires
            self.catalog.wf(),
        ensures
            (r is Ok) == (exists|i: int|
                0 <= i < self.catalog.models().len() && (#[trigger] self.catalog.models()[
                    i
                ]).ticket == ticket@),
            r matches Ok(out) ==> exists|i: int|
                0 <= i < self.catalog.models().len() && (#[trigger] self.catalog.models()[
                    i
                ]).ticket == ticket@ && adapts(
                    self.catalog.models()[i].schema,
                    batch_models(run.batches@),
                    run.end is Failed,
                    out,
                ),
            r matches Err(e) ==> e is NotFound,
    {
        match self.catalog.resolve_ticket(ticket) {
            Ok(i) => {
                proof {
                    assert(self.catalog.models()[i as int] == self.catalog.entries@[
                        i as int
                    ].model());
                }
                Ok(encode_run(&self.catalog.entries[i].schema, run))
            },
            Err(e) => Err(e),
        }
    }

    /// "get dataset info": outside this core; refused explicitly.
    pub fn get_flight_info(&self, _descriptor: &Descriptor) -> (r: Result<FlightInfo, FlightError>)
        ensures
            r matches Err(e) && e is Unimplemented,
    {
        Err(FlightError::Unimplemented)
    }

    /// "get schema": outside this core; refused explicitly.
    pub fn get_schema(&self, _descriptor: &Descriptor) -> (r: Result<FlightInfo, FlightError>)
        ensures
            r matches Err(e) && e is Unimplemented,
    {
        Err(FlightError::Unimplemented)
    }

    /// "put data": outside this core; refused at once. It takes no payload
    /// at all, so it cannot block on or read one.
    pub fn do_put(&self) -> (r: Result<(), FlightError>)
        ensures
            r matches Err(e) && e is Unimplemented,
    {
        Err(FlightError::Unimplemented)
    }

    /// "bidirectional exchange": outside this core; refused explicitly.
    pub fn do_exchange(&self) -> (r: Result<(), FlightError>)
        ensures
            r matches Err(e) && e is Unimplemented,
    {
        Err(FlightError::Unimplemented)
    }

    /// "custom action": outside this core; refused explicitly.
    pub fn do_action(&self) -> (r: Result<(), FlightError>)
        ensures
            r matches Err(e) && e is Unimplemented,
    {
        Err(FlightError::Unimplemented)
    }

    /// "list supported actions": outside this core; refused explicitly.
    pub fn list_actions(&self) -> (r: Result<(), FlightError>)
        ensures
            r matches Err(e) && e is Unimplemented,
    {
        Err(FlightError::Unimplemented)
    }

    /// "handshake": outside this core; refused explicitly.
    pub fn handshake(&self) -> (r: Result<(), FlightError>)
        ensures
            r matches Err(e) && e is Unimplemented,
    {
        Err(FlightError::Unimplemented)
    }

    /// "poll dataset info": outside this core; refused explicitly.
    pub fn poll_flight_info(&self, _descriptor: &Descriptor) -> (r: Result<
        FlightInfo,
        FlightError,
    >)
        ensures
            r matches Err(e) && e is Unimplemented,
    {
        Err(FlightError::Unimplemented)
    }
}

} // verus!
