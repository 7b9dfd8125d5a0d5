//! GPU placement.
use vstd::prelude::*;

use crate::error::SessionRpcError;
use crate::gpu::GpuLease;
use crate::ids::SessionId;

verus! {

/// What a session needs from the fleet: a model, and optionally an amount
/// of GPU memory.
#[derive(Clone, Debug, Eq, PartialEq)]
pub struct PlacementRequest {
    pub model_id: String,
    pub required_bytes: Option<u64>,
}

impl PlacementRequest {
    pub fn new(model_id: &str) -> (r: Self)
        ensures
            r.model_id@ == model_id@,
            r.required_bytes is None,
    {
        PlacementRequest { model_id: model_id.to_owned(), required_bytes: None }
    }

    pub fn with_required_bytes(self, required_bytes: u64) -> (r: Self)
        ensures
            r == (PlacementRequest { required_bytes: Some(required_bytes), ..self }),
    {
        PlacementRequest { required_bytes: Some(required_bytes), ..self }
    }
}

/// A source of GPU leases.  Implementations decide placement; the library
/// only hands them requests and records what they grant.
pub trait GpuScheduler: Sized {
    /// Handling `request` in this state may answer `result` and leave the
    /// scheduler in state `after`.
    spec fn grants(
        &self,
        request: PlacementRequest,
        result: Result<GpuLease, SessionRpcError>,
        after: &Self,
    ) -> bool;

    fn allocate(&mut self, request: &PlacementRequest) -> (r: Result<GpuLease, SessionRpcError>)
        ensures
            old(self).grants(*request, r, final(self)),
    ;

    /// Refreshing the lease `current` of session `session_id` in this state
    /// may answer `result` and leave the scheduler in state `after`.
    spec fn refreshes(
        &self,
        session_id: SessionId,
        current: GpuLease,
        result: Result<GpuLease, SessionRpcError>,
        after: &Self,
    ) -> bool;

    /// Whatever a scheduler defines as a refresh admits a fresh allocation
    /// for the session's model, which is what the provided `refresh` makes.
    proof fn lemma_fresh_allocation_refreshes(
        &self,
        session_id: SessionId,
        current: GpuLease,
        result: Result<GpuLease, SessionRpcError>,
        after: &Self,
    )
        requires
            self.grants(
                PlacementRequest { model_id: current.model_id, required_bytes: None },
                result,
                after,
            ),
        ensures
            self.refreshes(session_id, current, result, after),
    ;

    /// A new lease for a session that currently holds `current`.  The
    /// provided method asks for a fresh allocation for the same model;
    /// implementations may place the session otherwise.
    fn refresh(&mut self, session_id: SessionId, current: &GpuLease) -> (r: Result<
        GpuLease,
        SessionRpcError,
    >)
        ensures
            old(self).refreshes(session_id, *current, r, final(self)),
        default_ensures
            old(self).grants(
                PlacementRequest { model_id: current.model_id, required_bytes: None },
                r,
                final(self),
            ),
    {
        let ghost before = *self;
        let r = self.allocate(
            &PlacementRequest { model_id: current.model_id.clone(), required_bytes: None },
        );
        proof {
            before.lemma_fresh_allocation_refreshes(session_id, *current, r, self);
        }
        r
    }
}

/// The position `offset` steps after `start`, wrapping around a ring of
/// `len` positions (`start` and `offset` below `len`).
pub open spec fn ring_position(start: int, offset: int, len: int) -> int {
    if start + offset < len {
        start + offset
    } else {
        start + offset - len
    }
}

/// Where a scan of a pool of `len` leases begins for the cursor `next`
/// (the cursor taken modulo the pool size).
pub open spec fn scan_start(next: int, len: int) -> int {
    if next < len {
        next
    } else {
        next % len
    }
}

/// The first position, scanning the ring of leases from `start` and
/// skipping the first `offset` steps, whose lease serves `model`.
pub open spec fn first_lease_for(leases: Seq<GpuLease>, start: int, model: Seq<char>, offset: nat) -> Option<
    int,
>
    decreases leases.len() - offset,
{
    if offset >= leases.len() {
        None
    } else {
        let i = ring_position(start, offset as int, leases.len() as int);
        if leases[i].model_id@ == model {
            Some(i)
        } else {
            first_lease_for(leases, start, model, offset + 1)
        }
    }
}

/// A fixed pool of leases handed out round-robin: each allocation takes the
/// next lease, from where the previous allocation stopped, that serves the
/// requested model.
#[derive(Clone, Debug)]
pub struct StaticGpuScheduler {
    leases: Vec<GpuLease>,
    next: usize,
}

impl StaticGpuScheduler {
    /// The pool of leases.
    pub closed spec fn leases(&self) -> Seq<GpuLease> {
        self.leases@
    }

    /// The lease `j` positions after the cursor, going round the pool.
    pub open spec fn lease_after_cursor(&self, j: int) -> GpuLease {
        self.leases()[(self.cursor() + j) % (self.leases().len() as int)]
    }

    /// Where the next allocation starts scanning.
    pub closed spec fn cursor(&self) -> nat {
        self.next as nat
    }

    pub fn new(leases: Vec<GpuLease>) -> (s: Self)
        ensures
            s.leases() == leases@,
            s.cursor() == 0,
    {
        StaticGpuScheduler { leases, next: 0 }
    }
}

impl GpuScheduler for StaticGpuScheduler {
    /// Grants the first lease at or after the cursor, cyclically, that serves
    /// the requested model, and moves the cursor just past it; refuses with
    /// `PlacementUnavailable` when no lease serves the model.
    open spec fn grants(
        &self,
        request: PlacementRequest,
        result: Result<GpuLease, SessionRpcError>,
        after: &Self,
    ) -> bool {
        &&& after.leases() == self.leases()
        &&& match first_lease_for(
            self.leases(),
            scan_start(self.cursor() as int, self.leases().len() as int),
            request.model_id@,
            0,
        ) {
            Some(i) => {
                &&& result == Ok::<GpuLease, SessionRpcError>(self.leases()[i])
                &&& after.cursor() == if i + 1 == self.leases().len() {
                    0
                } else {
                    i + 1
                }
            },
            None => {
                &&& result == Err::<GpuLease, SessionRpcError>(
                    SessionRpcError::PlacementUnavailable { model_id: request.model_id },
                )
                &&& after.cursor() == self.cursor()
            },
        }
    }

    /// A refresh is a fresh allocation for the session's model.
    open spec fn refreshes(
        &self,
        session_id: SessionId,
        current: GpuLease,
        result: Result<GpuLease, SessionRpcError>,
        after: &Self,
    ) -> bool {
        self.grants(
            PlacementRequest { model_id: current.model_id, required_bytes: None },
            result,
            after,
        )
    }

    proof fn lemma_fresh_allocation_refreshes(
        &self,
        session_id: SessionId,
        current: GpuLease,
        result: Result<GpuLease, SessionRpcError>,
        after: &Self,
    ) {
    }

    fn allocate(&mut self, request: &PlacementRequest) -> (r: Result<GpuLease, SessionRpcError>) {
        let len = self.leases.len();
        if len == 0 {
            return Err(SessionRpcError::PlacementUnavailable { model_id: request.model_id.clone() });
        }
        let start = if self.next < len {
            self.next
        } else {
            self.next % len
        };
        let mut offset: usize = 0;
        while offset < len
            invariant
                len == self.leases@.len(),
                start == scan_start(old(self).next as int, len as int),
                self.leases@ == old(self).leases@,
                self.next == old(self).next,
                start < len,
                offset <= len,
                first_lease_for(self.leases@, start as int, request.model_id@, 0) == first_lease_for(
                    self.leases@,
                    start as int,
                    request.model_id@,
                    offset as nat,
                ),
            decreases len - offset,
        {
            let index = if offset < len - start {
                start + offset
            } else {
                offset - (len - start)
            };
            if self.leases[index].model_id == request.model_id {
                self.next = if index + 1 == len {
                    0
                } else {
                    index + 1
                };
                return Ok(self.leases[index].copied());
            }
            offset = offset + 1;
        }
        Err(SessionRpcError::PlacementUnavailable { model_id: request.model_id.clone() })
    }
}

/// The round-robin search finds a lease exactly when some lease in the pool
/// serves the model, and the lease it finds serves the model.
pub proof fn lemma_first_lease_for_finds_model(
    leases: Seq<GpuLease>,
    start: int,
    model: Seq<char>,
    offset: nat,
)
    requires
        0 <= start < leases.len(),
        offset <= leases.len(),
    ensures
        first_lease_for(leases, start, model, offset) matches Some(i) ==> 0 <= i < leases.len()
            && leases[i].model_id@ == model,
        first_lease_for(leases, start, model, offset) is None ==> forall|k: int|
            offset <= k < leases.len() ==> leases[ring_position(start, k, leases.len() as int)].model_id@
                != model,
    decreases leases.len() - offset,
{
    if offset < leases.len() {
        lemma_first_lease_for_finds_model(leases, start, model, offset + 1);
    }
}

/// Every lease of the pool is reached by the round-robin scan: position `i`
/// is `ring_position(start, k)` for some step `k` below the pool size.
pub proof fn lemma_ring_covers_pool(start: int, len: int, i: int)
    requires
        0 <= start < len,
        0 <= i < len,
    ensures
        exists|k: int| 0 <= k < len && ring_position(start, k, len) == i,
{
    if i >= start {
        assert(ring_position(start, i - start, len) == i);
    } else {
        assert(ring_position(start, len - start + i, len) == i);
    }
}

/// A static scheduler grants a lease exactly when its pool holds a lease for
/// the requested model, and the lease it grants is one for that model.
pub proof fn lemma_allocation_succeeds_iff_model_served(leases: Seq<GpuLease>, start: int, model: Seq<char>)
    requires
        leases.len() > 0 ==> 0 <= start < leases.len(),
    ensures
        first_lease_for(leases, start, model, 0) is Some <==> exists|i: int|
            0 <= i < leases.len() && #[trigger] leases[i].model_id@ == model,
        first_lease_for(leases, start, model, 0) matches Some(i) ==> 0 <= i < leases.len()
            && leases[i].model_id@ == model,
{
    if leases.len() > 0 {
        lemma_first_lease_for_finds_model(leases, start, model, 0);
        if first_lease_for(leases, start, model, 0) is None {
            assert forall|i: int| 0 <= i < leases.len() implies #[trigger] leases[i].model_id@
                != model by {
                lemma_ring_covers_pool(start, leases.len() as int, i);
            }
        }
    }
}

/// A static scheduler, whatever its cursor, grants a lease exactly when its
/// pool holds a lease for the requested model; the lease it grants is one of
/// the pool's leases for that model, and a refusal is `PlacementUnavailable`
/// naming the model.
pub proof fn lemma_static_allocation(
    s: StaticGpuScheduler,
    request: PlacementRequest,
    r: Result<GpuLease, SessionRpcError>,
    after: StaticGpuScheduler,
)
    requires
        s.grants(request, r, &after),
    ensures
        (r is Ok) <==> (exists|i: int|
            0 <= i < s.leases().len() && #[trigger] s.leases()[i].model_id@ == request.model_id@),
        r matches Ok(l) ==> (exists|i: int|
            0 <= i < s.leases().len() && #[trigger] s.leases()[i] == l && l.model_id@
                == request.model_id@),
        r matches Err(e) ==> (e == (SessionRpcError::PlacementUnavailable {
            model_id: request.model_id,
        })),
        after.leases() == s.leases(),
{
    let len = s.leases().len() as int;
    let start = scan_start(s.cursor() as int, len);
    lemma_allocation_succeeds_iff_model_served(s.leases(), start, request.model_id@);
}

proof fn lemma_first_lease_offset(leases: Seq<GpuLease>, start: int, model: Seq<char>, offset: nat)
    requires
        0 <= start < leases.len(),
        offset <= leases.len(),
    ensures
        first_lease_for(leases, start, model, offset) matches Some(i) ==> exists|k: int|
            offset <= k < leases.len() && i == ring_position(start, k, leases.len() as int) && (
            forall|k2: int|
                offset <= k2 < k ==> #[trigger] leases[ring_position(start, k2, leases.len() as int)].model_id@
                    != model),
    decreases leases.len() - offset,
{
    if offset < leases.len() {
        lemma_first_lease_offset(leases, start, model, offset + 1);
        let len = leases.len() as int;
        if leases[ring_position(start, offset as int, len)].model_id@ != model {
            if let Some(i) = first_lease_for(leases, start, model, offset + 1) {
                let k = choose|k: int|
                    offset + 1 <= k < len && i == ring_position(start, k, len) && (forall|k2: int|
                        offset + 1 <= k2 < k ==> #[trigger] leases[ring_position(start, k2, len)].model_id@
                            != model);
                assert(offset <= k < len && i == ring_position(start, k, len));
            }
        }
    }
}

proof fn lemma_ring_is_mod(c: int, j: int, len: int)
    requires
        c >= 0,
        len > 0,
        0 <= j < len,
    ensures
        0 <= scan_start(c, len) < len,
        ring_position(scan_start(c, len), j, len) == (c + j) % len,
{
    let q = c / len;
    let r0 = c % len;
    vstd::arithmetic::div_mod::lemma_fundamental_div_mod(c, len);
    vstd::arithmetic::div_mod::lemma_mod_bound(c, len);
    if c < len {
        vstd::arithmetic::div_mod::lemma_fundamental_div_mod_converse(c, len, 0, c);
    }
    assert(scan_start(c, len) == r0);
    if r0 + j < len {
        assert(c + j == q * len + (r0 + j));
        vstd::arithmetic::div_mod::lemma_fundamental_div_mod_converse(c + j, len, q, r0 + j);
    } else {
        assert(c + j == (q + 1) * len + (r0 + j - len)) by (nonlinear_arith)
            requires
                c == q * len + r0,
        ;
        vstd::arithmetic::div_mod::lemma_fundamental_div_mod_converse(c + j, len, q + 1, r0 + j - len);
    }
}

/// A static scheduler hands leases out round-robin: a grant takes, among
/// the pool positions `cursor, cursor + 1, ...` (modulo the pool size), the
/// first lease that serves the requested model, skipping none that does,
/// and moves the cursor to the position just after it; a refusal leaves the
/// cursor where it was.
pub proof fn lemma_static_allocation_round_robin(
    s: StaticGpuScheduler,
    request: PlacementRequest,
    r: Result<GpuLease, SessionRpcError>,
    after: StaticGpuScheduler,
)
    requires
        s.grants(request, r, &after),
    ensures
        r matches Ok(l) ==> (exists|k: int|
            0 <= k < s.leases().len() && (forall|j: int|
                0 <= j < k ==> (#[trigger] s.lease_after_cursor(j)).model_id@ != request.model_id@)
                && s.lease_after_cursor(k) == l && after.cursor() == ((s.cursor() + k) % (
            s.leases().len() as int) + 1) % (s.leases().len() as int)),
        r is Err ==> after.cursor() == s.cursor(),
{
    let len = s.leases().len() as int;
    let c = s.cursor() as int;
    let start = scan_start(c, len);
    let model = request.model_id@;
    if let Ok(l) = r {
        assert(len > 0);
        lemma_ring_is_mod(c, 0, len);
        lemma_first_lease_offset(s.leases(), start, model, 0);
        let i = first_lease_for(s.leases(), start, model, 0)->0;
        let k = choose|k: int|
            0 <= k < len && i == ring_position(start, k, len) && (forall|k2: int|
                0 <= k2 < k ==> #[trigger] s.leases()[ring_position(start, k2, len)].model_id@ != model);
        lemma_ring_is_mod(c, k, len);
        assert forall|j: int| 0 <= j < k implies (#[trigger] s.lease_after_cursor(j)).model_id@
            != model by {
            lemma_ring_is_mod(c, j, len);
            assert(s.leases()[ring_position(start, j, len)].model_id@ != model);
        }
        if i + 1 < len {
            vstd::arithmetic::div_mod::lemma_fundamental_div_mod_converse(i + 1, len, 0, i + 1);
        } else {
            vstd::arithmetic::div_mod::lemma_fundamental_div_mod_converse(i + 1, len, 1, 0);
        }
        assert((c + k) % len == i);
        assert(l == s.leases()[i]);
        assert(s.lease_after_cursor(k) == l);
        assert(after.cursor() == ((c + k) % len + 1) % len);
    }
}

} // verus!
