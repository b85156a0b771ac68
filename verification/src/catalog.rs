use crate::data::{FieldModel, Schema};
use crate::error::FlightError;
use vstd::prelude::*;

verus! {

/// The reserved sentinel meaning "unknown" for a total row or byte count.
/// It is advisory only: no conformant client uses these totals as a loop
/// bound; only the end-of-stream signal governs termination.
pub const UNKNOWN_TOTAL: i64 = -1;

/// Identifies a dataset: an ordered list of path segments, or an opaque
/// command payload. Used only as an exact-match lookup key.
#[derive(Debug)]
pub enum Descriptor {
    Path(Vec<String>),
    Cmd(Vec<u8>),
}

/// Mathematical model of a descriptor.
#[verifier::ext_equal]
pub enum DescModel {
    Path(Seq<Seq<char>>),
    Cmd(Seq<u8>),
}

/// The views of a sequence of strings.
pub open spec fn seg_views(s: Seq<String>) -> Seq<Seq<char>> {
    s.map_values(|x: String| x@)
}

impl Descriptor {
    pub open spec fn model(self) -> DescModel {
        match self {
            Descriptor::Path(p) => DescModel::Path(seg_views(p@)),
            Descriptor::Cmd(c) => DescModel::Cmd(c@),
        }
    }

    /// A descriptor whose model equals this one's.
    #[verifier::loop_isolation(false)]
    pub fn deep_clone(&self) -> (r: Descriptor)
        ensures
            r.model() == self.model(),
    {
        match self {
            Descriptor::Path(p) => {
                let mut segs: Vec<String> = Vec::new();
                let mut i: usize = 0;
                while i < p.len()
                    invariant
                        i <= p@.len(),
                        segs@.len() == i as int,
                        forall|j: int| 0 <= j < i as int ==> (#[trigger] segs@[j])@ == p@[j]@,
                    decreases p@.len() - i,
                {
                    segs.push(p[i].clone());
                    i = i + 1;
                }
                let r = Descriptor::Path(segs);
                proof {
                    assert(seg_views(segs@) =~= seg_views(p@));
                }
                r
            },
            Descriptor::Cmd(c) => Descriptor::Cmd(clone_bytes(c)),
        }
    }
}

/// A byte vector with the same contents.
#[verifier::loop_isolation(false)]
pub fn clone_bytes(v: &Vec<u8>) -> (r: Vec<u8>)
    ensures
        r@ == v@,
{
    let mut out: Vec<u8> = Vec::new();
    let mut i: usize = 0;
    while i < v.len()
        invariant
            i <= v@.len(),
            out@ == v@.take(i as int),
        decreases v@.len() - i,
    {
        out.push(v[i]);
        proof {
            assert(out@ =~= v@.take(i as int + 1));
        }
        i = i + 1;
    }
    proof {
        assert(v@.take(v@.len() as int) =~= v@);
    }
    out
}

/// Whether two byte vectors hold the same bytes.
#[verifier::loop_isolation(false)]
pub fn bytes_eq(a: &Vec<u8>, b: &Vec<u8>) -> (r: bool)
    ensures
        r == (a@ == b@),
{
    if a.len() != b.len() {
        return false;
    }
    let mut i: usize = 0;
    while i < a.len()
        invariant
            i <= a@.len(),
            a@.len() == b@.len(),
            forall|j: int| 0 <= j < i as int ==> a@[j] == b@[j],
        decreases a@.len() - i,
    {
        if a[i] != b[i] {
            return false;
        }
        i = i + 1;
    }
    proof {
        assert(a@ =~= b@);
    }
    true
}

/// Whether two descriptors are the same key: same form, and equal segment
/// by segment or byte by byte.
#[verifier::loop_isolation(false)]
pub fn desc_eq(a: &Descriptor, b: &Descriptor) -> (r: bool)
    ensures
        r == (a.model() == b.model()),
{
    match (a, b) {
        (Descriptor::Path(x), Descriptor::Path(y)) => {
            if x.len() != y.len() {
                proof {
                    assert(seg_views(x@).len() != seg_views(y@).len());
                }
                return false;
            }
            let mut i: usize = 0;
            while i < x.len()
                invariant
                    i <= x@.len(),
                    x@.len() == y@.len(),
                    forall|j: int| 0 <= j < i as int ==> (#[trigger] x@[j])@ == y@[j]@,
                decreases x@.len() - i,
            {
                if !(x[i] == y[i]) {
                    proof {
                        assert(seg_views(x@)[i as int] != seg_views(y@)[i as int]);
                    }
                    return false;
                }
                i = i + 1;
            }
            proof {
                assert(seg_views(x@) =~= seg_views(y@));
            }
            true
        },
        (Descriptor::Cmd(x), Descriptor::Cmd(y)) => bytes_eq(x, y),
        _ => false,
    }
}

/// One retrieval endpoint: the ticket to redeem for the data, and optional
/// alternate location hints (empty here: this server serves its own data).
#[derive(Debug)]
pub struct Endpoint {
    pub ticket: Vec<u8>,
    pub locations: Vec<String>,
}

/// Mathematical model of an endpoint.
#[verifier::ext_equal]
pub struct EndpointModel {
    pub ticket: Seq<u8>,
    pub locations: Seq<Seq<char>>,
}

impl Endpoint {
    pub open spec fn model(self) -> EndpointModel {
        EndpointModel { ticket: self.ticket@, locations: seg_views(self.locations@) }
    }
}

pub open spec fn ep_models(s: Seq<Endpoint>) -> Seq<EndpointModel> {
    s.map_values(|e: Endpoint| e.model())
}

/// Discovery record for one dataset: its descriptor, schema, endpoints and
/// advisory size hints. Well-formed records carry at least one endpoint,
/// and each total is a count or the reserved unknown sentinel.
#[derive(Debug)]
pub struct FlightInfo {
    pub descriptor: Descriptor,
    pub schema: Schema,
    pub endpoints: Vec<Endpoint>,
    pub total_records: i64,
    pub total_bytes: i64,
    pub ordered: bool,
}

/// Mathematical model of a discovery record.
#[verifier::ext_equal]
pub struct InfoModel {
    pub desc: DescModel,
    pub schema: Seq<FieldModel>,
    pub endpoints: Seq<EndpointModel>,
    pub total_records: int,
    pub total_bytes: int,
    pub ordered: bool,
}

impl FlightInfo {
    pub open spec fn model(self) -> InfoModel {
        InfoModel {
            desc: self.descriptor.model(),
            schema: self.schema.model(),
            endpoints: ep_models(self.endpoints@),
            total_records: self.total_records as int,
            total_bytes: self.total_bytes as int,
            ordered: self.ordered,
        }
    }

    pub open spec fn wf(self) -> bool {
        &&& self.endpoints@.len() >= 1
        &&& self.total_records >= UNKNOWN_TOTAL
        &&& self.total_bytes >= UNKNOWN_TOTAL
    }
}

/// One registered dataset: its key, schema, the ticket minted for it, and
/// advisory size hints.
#[derive(Debug)]
pub struct CatalogEntry {
    pub descriptor: Descriptor,
    pub schema: Schema,
    pub ticket: Vec<u8>,
    pub total_records: i64,
    pub total_bytes: i64,
    pub ordered: bool,
}

/// Mathematical model of a catalog entry.
#[verifier::ext_equal]
pub struct EntryModel {
    pub desc: DescModel,
    pub schema: Seq<FieldModel>,
    pub ticket: Seq<u8>,
    pub total_records: int,
    pub total_bytes: int,
    pub ordered: bool,
}

impl CatalogEntry {
    pub open spec fn model(self) -> EntryModel {
        EntryModel {
            desc: self.descriptor.model(),
            schema: self.schema.model(),
            ticket: self.ticket@,
            total_records: self.total_records as int,
            total_bytes: self.total_bytes as int,
            ordered: self.ordered,
        }
    }
}

pub open spec fn entry_models(s: Seq<CatalogEntry>) -> Seq<EntryModel> {
    s.map_values(|e: CatalogEntry| e.model())
}

/// The discovery record minted for an entry: one endpoint holding the
/// entry's ticket, no location hints, the entry's hints and order flag.
pub open spec fn info_of(e: EntryModel) -> InfoModel {
    InfoModel {
        desc: e.desc,
        schema: e.schema,
        endpoints: seq![
            EndpointModel { ticket: e.ticket, locations: Seq::<Seq<char>>::empty() },
        ],
        total_records: e.total_records,
        total_bytes: e.total_bytes,
        ordered: e.ordered,
    }
}

/// Maps descriptors and tickets to dataset metadata: populated once at
/// startup, read-only afterward, every lookup an exact match with no side
/// effects.
#[derive(Debug)]
pub struct Catalog {
    pub entries: Vec<CatalogEntry>,
}

/// The catalog invariant over entry models: descriptors are unique,
/// tickets are unique, and every size hint is a count or the unknown
/// sentinel.
pub open spec fn entries_wf(ms: Seq<EntryModel>) -> bool {
    &&& forall|i: int, j: int| 0 <= i < j < ms.len() ==> ms[i].desc != ms[j].desc
    &&& forall|i: int, j: int| 0 <= i < j < ms.len() ==> ms[i].ticket != ms[j].ticket
    &&& forall|i: int|
        0 <= i < ms.len() ==> (#[trigger] ms[i]).total_records >= -1 && ms[i].total_bytes >= -1
}

impl Catalog {
    pub open spec fn models(self) -> Seq<EntryModel> {
        entry_models(self.entries@)
    }

    /// Descriptors are unique, tickets are unique, and every size hint is a
    /// count or the unknown sentinel.
    pub open spec fn wf(self) -> bool {
        entries_wf(self.models())
    }

    pub fn new() -> (r: Catalog)
        ensures
            r.wf(),
            r.models() == Seq::<EntryModel>::empty(),
    {
        let r = Catalog { entries: Vec::new() };
        proof {
            assert(r.models() =~= Seq::<EntryModel>::empty());
        }
        r
    }

    /// Registers one dataset. The catalog is unchanged and `false` comes
    /// back exactly when the descriptor or the ticket is already taken or a
    /// size hint is below the sentinel.
    #[verifier::loop_isolation(false)]
    pub fn register(&mut self, e: CatalogEntry) -> (r: bool)
        requires
            old(self).wf(),
        ensures
            final(self).wf(),
            r ==> final(self).models() == old(self).models().push(e.model()),
            !r ==> *final(self) == *old(self),
            r == (e.total_records >= -1 && e.total_bytes >= -1 && (forall|i: int|
                0 <= i < old(self).models().len() ==> (#[trigger] old(self).models()[i]).desc
                    != e.model().desc && old(self).models()[i].ticket != e.model().ticket)),
    {
        if e.total_records < -1 || e.total_bytes < -1 {
            return false;
        }
        let mut i: usize = 0;
        while i < self.entries.len()
            invariant
                i <= self.entries@.len(),
                *self == *old(self),
                forall|j: int| 0 <= j < i as int ==> (#[trigger] self.models()[j]).desc
                    != e.model().desc && self.models()[j].ticket != e.model().ticket,
            decreases self.entries@.len() - i,
        {
            proof {
                assert(self.models()[i as int] == self.entries@[i as int].model());
            }
            if desc_eq(&self.entries[i].descriptor, &e.descriptor) {
                return false;
            }
            if bytes_eq(&self.entries[i].ticket, &e.ticket) {
                return false;
            }
            i = i + 1;
        }
        let ghost prev = self.models();
        self.entries.push(e);
        proof {
            assert(self.models() =~= prev.push(self.entries@[self.entries@.len() - 1].model()));
        }
        true
    }

    /// Builds the discovery record for one entry.
    fn build_info(e: &CatalogEntry) -> (r: FlightInfo)
        requires
            e.model().total_records >= -1,
            e.model().total_bytes >= -1,
        ensures
            r.model() == info_of(e.model()),
            r.wf(),
    {
        let mut endpoints: Vec<Endpoint> = Vec::new();
        endpoints.push(Endpoint { ticket: clone_bytes(&e.ticket), locations: Vec::new() });
        let r = FlightInfo {
            descriptor: e.descriptor.deep_clone(),
            schema: e.schema.deep_clone(),
            endpoints,
            total_records: e.total_records,
            total_bytes: e.total_bytes,
            ordered: e.ordered,
        };
        proof {
            assert(seg_views(Seq::<String>::empty()) =~= Seq::<Seq<char>>::empty());
            assert(ep_models(r.endpoints@) =~= info_of(e.model()).endpoints);
            assert(r.model() =~= info_of(e.model()));
        }
        r
    }

    /// "list datasets": the discovery record of every registered dataset,
    /// in registration order, recomputed per call.
    #[verifier::loop_isolation(false)]
    pub fn list(&self) -> (r: Vec<FlightInfo>)
        requires
            self.wf(),
        ensures
            r@.len() == self.models().len(),
            forall|i: int| 0 <= i < r@.len() ==> (#[trigger] r@[i]).model() == info_of(
                self.models()[i],
            ) && r@[i].wf(),
    {
        let mut out: Vec<FlightInfo> = Vec::new();
        let mut i: usize = 0;
        while i < self.entries.len()
            invariant
                i <= self.entries@.len(),
                out@.len() == i as int,
                forall|j: int| 0 <= j < i as int ==> (#[trigger] out@[j]).model() == info_of(
                    self.models()[j],
                ) && out@[j].wf(),
            decreases self.entries@.len() - i,
        {
            proof {
                assert(self.models()[i as int] == self.entries@[i as int].model());
            }
            out.push(Self::build_info(&self.entries[i]));
            i = i + 1;
        }
        out
    }

    /// Looks one descriptor up: the matching entry's discovery record, or
    /// `NotFound` exactly when no entry's descriptor equals it.
    #[verifier::loop_isolation(false)]
    pub fn lookup(&self, d: &Descriptor) -> (r: Result<FlightInfo, FlightError>)
        requires
            self.wf(),
        ensures
            (r is Ok) == (exists|i: int|
                0 <= i < self.models().len() && (#[trigger] self.models()[i]).desc == d.model()),
            r matches Ok(info) ==> exists|i: int|
                0 <= i < self.models().len() && (#[trigger] self.models()[i]).desc == d.model()
                    && info.model() == info_of(self.models()[i]) && info.wf(),
            r matches Err(e) ==> e is NotFound,
    {
        let mut i: usize = 0;
        while i < self.entries.len()
            invariant
                i <= self.entries@.len(),
                forall|j: int| 0 <= j < i as int ==> (#[trigger] self.models()[j]).desc
                    != d.model(),
            decreases self.entries@.len() - i,
        {
            proof {
                assert(self.models()[i as int] == self.entries@[i as int].model());
            }
            if desc_eq(&self.entries[i].descriptor, d) {
                return Ok(Self::build_info(&self.entries[i]));
            }
            i = i + 1;
        }
        Err(FlightError::NotFound)
    }

    /// Resolves a ticket to the index of its dataset, or `NotFound` exactly
    /// when no entry's ticket equals it. Tickets are reusable: resolving
    /// one does not consume it.
    #[verifier::loop_isolation(false)]
    pub fn resolve_ticket(&self, ticket: &Vec<u8>) -> (r: Result<usize, FlightError>)
        ensures
            (r is Ok) == (exists|i: int|
                0 <= i < self.models().len() && (#[trigger] self.models()[i]).ticket == ticket@),
            r matches Ok(i) ==> i < self.models().len() && self.models()[i as int].ticket
                == ticket@,
            r matches Err(e) ==> e is NotFound,
    {
        let mut i: usize = 0;
        while i < self.entries.len()
            invariant
                i <= self.entries@.len(),
                forall|j: int| 0 <= j < i as int ==> (#[trigger] self.models()[j]).ticket
                    != ticket@,
            decreases self.entries@.len() - i,
        {
            proof {
                assert(self.models()[i as int] == self.entries@[i as int].model());
            }
            if bytes_eq(&self.entries[i].ticket, ticket) {
                return Ok(i);
            }
            i = i + 1;
        }
        Err(FlightError::NotFound)
    }
}

} // verus!
