//! Kubernetes sticky routing: projects live sessions into backend decisions
//! that a sidecar, ingress extension or proxy can consume.
use std::collections::HashMap;
use vstd::prelude::*;

use crate::gpu::GpuLease;
use crate::ids::{lemma_uuid_text_order, text_before, uuid_text, LeaseEpoch, SessionId};
use crate::keyset::{ascending, map_keys, sort_ids};
use crate::session::{snapshot_of, SessionRegistry, SessionSnapshot};

verus! {

broadcast use {vstd::std_specs::hash::group_hash_axioms, vstd::string::group_string_axioms};

/// The header that carries the sticky key unless a policy names another.
pub const DEFAULT_STICKY_HEADER: &'static str = "x-sessionrpc-session";

/// How sessions map onto Kubernetes backends.
#[derive(Clone, Debug, Eq, PartialEq)]
pub struct K8sRoutePolicy {
    pub backend_namespace: String,
    pub service_prefix: String,
    pub backend_port: u16,
    pub sticky_header: String,
}

/// Where one session's traffic goes.
#[derive(Clone, Debug, Eq, PartialEq)]
pub struct StickyRouteDecision {
    pub session_id: SessionId,
    pub sticky_header: String,
    pub sticky_key: String,
    pub backend_namespace: String,
    pub backend_service: String,
    pub backend_port: u16,
    pub worker_id: String,
    pub device_ordinal: u32,
    pub model_id: String,
    pub lease_epoch: LeaseEpoch,
}

/// An ASCII letter or digit.
pub open spec fn is_label_char(c: char) -> bool {
    ('0' <= c && c <= '9') || ('a' <= c && c <= 'z') || ('A' <= c && c <= 'Z')
}

/// The lower-case form of an ASCII letter; other characters unchanged.
pub open spec fn label_lower(c: char) -> char {
    if 'A' <= c && c <= 'Z' {
        ((c as u8) + 32) as u8 as char
    } else {
        c
    }
}

/// The runs of ASCII letters and digits of `s`, lower-cased, in order,
/// joined by single hyphens.
pub open spec fn label_runs(s: Seq<char>) -> Seq<char>
    decreases s.len(),
{
    if s.len() == 0 {
        Seq::empty()
    } else {
        let prev = label_runs(s.drop_last());
        let c = s.last();
        if !is_label_char(c) {
            prev
        } else if prev.len() > 0 && !is_label_char(s[s.len() - 2]) {
            prev + seq!['-', label_lower(c)]
        } else {
            prev.push(label_lower(c))
        }
    }
}

/// The DNS-label fragment for a worker id: its label runs, or `worker` when
/// it has no letter or digit.
pub open spec fn dns_label(s: Seq<char>) -> Seq<char> {
    if label_runs(s).len() == 0 {
        seq!['w', 'o', 'r', 'k', 'e', 'r']
    } else {
        label_runs(s)
    }
}

/// A lower-case ASCII letter or a digit.
pub open spec fn is_lower_alnum(c: char) -> bool {
    ('0' <= c && c <= '9') || ('a' <= c && c <= 'z')
}

/// `t` is lower-case letters and digits in runs joined by single hyphens:
/// non-empty, with no hyphen first, last, or next to another hyphen.
pub open spec fn is_dns_label(t: Seq<char>) -> bool {
    &&& t.len() > 0
    &&& forall|i: int| 0 <= i < t.len() ==> is_lower_alnum(#[trigger] t[i]) || t[i] == '-'
    &&& is_lower_alnum(t[0])
    &&& is_lower_alnum(t.last())
    &&& forall|i: int, j: int|
        #![trigger t[i], t[j]]
        0 <= i && j == i + 1 && j < t.len() ==> is_lower_alnum(t[i]) || is_lower_alnum(t[j])
}

proof fn lemma_label_lower(c: char)
    requires
        is_label_char(c),
    ensures
        is_lower_alnum(label_lower(c)),
{
    if 'A' <= c && c <= 'Z' {
        let u = c as u32;
        assert(65 <= u <= 90);
        assert(label_lower(c) as u32 == u + 32);
    }
}

proof fn lemma_label_runs_shape(s: Seq<char>)
    ensures
        label_runs(s).len() > 0 ==> is_dns_label(label_runs(s)),
        label_runs(s).len() == 0 <==> forall|i: int| 0 <= i < s.len() ==> !is_label_char(#[trigger] s[i]),
    decreases s.len(),
{
    if s.len() > 0 {
        let rest = s.drop_last();
        lemma_label_runs_shape(rest);
        let prev = label_runs(rest);
        let c = s.last();
        assert forall|i: int| 0 <= i < rest.len() implies rest[i] == s[i] by {}
        if is_label_char(c) {
            lemma_label_lower(c);
            let t = label_runs(s);
            if prev.len() > 0 && !is_label_char(s[s.len() - 2]) {
                assert(t == prev + seq!['-', label_lower(c)]);
                assert forall|i: int, j: int| 0 <= i && j == i + 1 && j < t.len() implies is_lower_alnum(
                    #[trigger] t[i],
                ) || is_lower_alnum(#[trigger] t[j]) by {
                    if j < prev.len() {
                        assert(t[i] == prev[i] && t[j] == prev[j]);
                    } else if j == prev.len() {
                        assert(t[i] == prev.last());
                    } else {
                        assert(t[j] == label_lower(c));
                    }
                }
                assert(t[0] == prev[0]);
                assert forall|i: int| 0 <= i < t.len() implies is_lower_alnum(#[trigger] t[i]) || t[i]
                    == '-' by {
                    if i < prev.len() {
                        assert(t[i] == prev[i]);
                    }
                }
            } else {
                assert(t == prev.push(label_lower(c)));
                if prev.len() > 0 {
                    assert forall|i: int, j: int| 0 <= i && j == i + 1 && j < t.len() implies is_lower_alnum(
                        #[trigger] t[i],
                    ) || is_lower_alnum(#[trigger] t[j]) by {
                        if j < prev.len() {
                            assert(t[i] == prev[i] && t[j] == prev[j]);
                        } else {
                            assert(t[j] == label_lower(c));
                        }
                    }
                    assert(t[0] == prev[0]);
                }
                assert forall|i: int| 0 <= i < t.len() implies is_lower_alnum(#[trigger] t[i]) || t[i]
                    == '-' by {
                    if i < prev.len() {
                        assert(t[i] == prev[i]);
                    }
                }
            }
        } else {
            if prev.len() == 0 {
                assert forall|i: int| 0 <= i < s.len() implies !is_label_char(#[trigger] s[i]) by {
                    if i < rest.len() {
                        assert(s[i] == rest[i]);
                    }
                }
            }
        }
    }
}

/// The DNS-label fragment of a worker id is always a DNS label: lower-case
/// letters and digits in runs joined by single hyphens, with no leading,
/// trailing or doubled hyphen.  It is `worker` exactly when the worker id
/// has no ASCII letter or digit, and the worker id's lower-cased runs of
/// letters and digits otherwise.
pub proof fn lemma_dns_label_shape(worker_id: Seq<char>)
    ensures
        is_dns_label(dns_label(worker_id)),
        (forall|i: int| 0 <= i < worker_id.len() ==> !is_label_char(#[trigger] worker_id[i]))
            ==> dns_label(worker_id) == seq!['w', 'o', 'r', 'k', 'e', 'r'],
        (exists|i: int| 0 <= i < worker_id.len() && is_label_char(#[trigger] worker_id[i]))
            ==> dns_label(worker_id) == label_runs(worker_id),
{
    lemma_label_runs_shape(worker_id);
    let w = seq!['w', 'o', 'r', 'k', 'e', 'r'];
    if label_runs(worker_id).len() == 0 {
        assert forall|i: int, j: int| 0 <= i && j == i + 1 && j < w.len() implies is_lower_alnum(
            #[trigger] w[i],
        ) || is_lower_alnum(#[trigger] w[j]) by {}
    }
}

/// The backend service of a worker: the policy's prefix, a hyphen, and the
/// worker's DNS-label fragment.
pub open spec fn backend_service_name(prefix: Seq<char>, worker_id: Seq<char>) -> Seq<char> {
    prefix + seq!['-'] + dns_label(worker_id)
}

/// `d` is the route decision `policy` makes for the session `s`.
pub open spec fn decides(d: StickyRouteDecision, s: SessionSnapshot, policy: K8sRoutePolicy) -> bool {
    &&& d.session_id == s.session_id
    &&& d.sticky_header == policy.sticky_header
    &&& d.sticky_key@ == uuid_text(s.session_id.0)
    &&& d.backend_namespace == policy.backend_namespace
    &&& d.backend_service@ == backend_service_name(policy.service_prefix@, s.lease.worker_id@)
    &&& d.backend_port == policy.backend_port
    &&& d.worker_id == s.lease.worker_id
    &&& d.device_ordinal == s.lease.device_ordinal
    &&& d.model_id == s.lease.model_id
    &&& d.lease_epoch == s.lease_epoch
}

/// The last snapshot of `snaps` for session `id`, if any.
pub open spec fn last_snapshot_for(snaps: Seq<SessionSnapshot>, id: u128) -> Option<SessionSnapshot>
    decreases snaps.len(),
{
    if snaps.len() == 0 {
        None
    } else if snaps.last().session_id.0 == id {
        Some(snaps.last())
    } else {
        last_snapshot_for(snaps.drop_last(), id)
    }
}

/// A snapshot that `last_snapshot_for` finds is one of the snapshots, for
/// the session asked about; when it finds none, no snapshot is for that
/// session.
proof fn lemma_last_snapshot_for(snaps: Seq<SessionSnapshot>, id: u128)
    ensures
        last_snapshot_for(snaps, id) matches Some(s) ==> s.session_id.0 == id && exists|i: int|
            0 <= i < snaps.len() && snaps[i] == s,
        last_snapshot_for(snaps, id) is None ==> forall|i: int|
            0 <= i < snaps.len() ==> snaps[i].session_id.0 != id,
    decreases snaps.len(),
{
    if snaps.len() > 0 {
        lemma_last_snapshot_for(snaps.drop_last(), id);
        if last_snapshot_for(snaps, id) is None {
            assert forall|i: int| 0 <= i < snaps.len() implies snaps[i].session_id.0 != id by {
                if i < snaps.len() - 1 {
                    assert(snaps[i] == snaps.drop_last()[i]);
                }
            }
        }
        if snaps.last().session_id.0 != id {
            if let Some(s) = last_snapshot_for(snaps, id) {
                let i = choose|i: int| 0 <= i < snaps.drop_last().len() && snaps.drop_last()[i] == s;
                assert(snaps[i] == s);
            }
        }
    }
}

/// `String::push`: appends one character.
#[verifier::external_body]
fn push_char(s: &mut String, c: char)
    ensures
        final(s)@ == old(s)@.push(c),
{
    s.push(c)
}

/// The DNS-label fragment of a worker id.
pub fn dns_label_fragment(value: &str) -> (fragment: String)
    ensures
        fragment@ == dns_label(value@),
{
    let mut fragment = String::new();
    let mut gap = false;
    for c in it: value.chars()
        invariant
            it.seq() == value@,
            fragment@ == label_runs(value@.take(it.index())),
            gap == (it.index() > 0 && !is_label_char(value@[it.index() - 1])),
    {
        let ghost i = it.index();
        proof {
            assert(value@.take(i + 1).drop_last() =~= value@.take(i));
            assert(value@.take(i + 1).last() == c);
            if i > 0 {
                assert(value@.take(i + 1)[i - 1] == value@[i - 1]);
            }
        }
        let is_label = ('0' <= c && c <= '9') || ('a' <= c && c <= 'z') || ('A' <= c && c <= 'Z');
        if is_label {
            if gap && !fragment.as_str().is_empty() {
                push_char(&mut fragment, '-');
            }
            let lower = if 'A' <= c && c <= 'Z' {
                ((c as u8) + 32) as char
            } else {
                c
            };
            push_char(&mut fragment, lower);
            gap = false;
        } else {
            gap = true;
        }
        proof {
            assert(fragment@ =~= label_runs(value@.take(i + 1)));
        }
    }
    proof {
        assert(value@.take(value@.len() as int) =~= value@);
    }
    if fragment.as_str().is_empty() {
        let worker = String::from_str("worker");
        proof {
            reveal_strlit("worker");
            assert(worker@ =~= seq!['w', 'o', 'r', 'k', 'e', 'r']);
        }
        worker
    } else {
        fragment
    }
}

impl K8sRoutePolicy {
    pub fn new(backend_namespace: &str, service_prefix: &str, backend_port: u16) -> (p: Self)
        ensures
            p.backend_namespace@ == backend_namespace@,
            p.service_prefix@ == service_prefix@,
            p.backend_port == backend_port,
            p.sticky_header@ == DEFAULT_STICKY_HEADER@,
    {
        K8sRoutePolicy {
            backend_namespace: backend_namespace.to_owned(),
            service_prefix: service_prefix.to_owned(),
            backend_port,
            sticky_header: DEFAULT_STICKY_HEADER.to_owned(),
        }
    }

    pub fn with_sticky_header(self, sticky_header: &str) -> (p: Self)
        ensures
            p.backend_namespace == self.backend_namespace,
            p.service_prefix == self.service_prefix,
            p.backend_port == self.backend_port,
            p.sticky_header@ == sticky_header@,
    {
        K8sRoutePolicy { sticky_header: sticky_header.to_owned(), ..self }
    }

    /// The backend service for a worker.
    pub fn backend_service(&self, worker_id: &str) -> (s: String)
        ensures
            s@ == backend_service_name(self.service_prefix@, worker_id@),
    {
        let fragment = dns_label_fragment(worker_id);
        let mut service = self.service_prefix.clone();
        service.append("-");
        service.append(fragment.as_str());
        proof {
            reveal_strlit("-");
        }
        service
    }

    /// The route decision for one session.
    pub fn decide(&self, snapshot: &SessionSnapshot) -> (d: StickyRouteDecision)
        ensures
            decides(d, *snapshot, *self),
    {
        StickyRouteDecision {
            session_id: snapshot.session_id,
            sticky_header: self.sticky_header.clone(),
            sticky_key: snapshot.session_id.to_string(),
            backend_namespace: self.backend_namespace.clone(),
            backend_service: self.backend_service(snapshot.lease.worker_id.as_str()),
            backend_port: self.backend_port,
            worker_id: snapshot.lease.worker_id.clone(),
            device_ordinal: snapshot.lease.device_ordinal,
            model_id: snapshot.lease.model_id.clone(),
            lease_epoch: snapshot.lease_epoch,
        }
    }
}

/// The route decisions for a set of sessions, keyed by session id.
#[derive(Debug, Eq, PartialEq)]
pub struct StickyRouteTable {
    routes: HashMap<u128, StickyRouteDecision>,
}

impl Clone for StickyRouteTable {
    fn clone(&self) -> (t: Self)
        ensures
            t.routes() == self.routes(),
    {
        proof {
            use_type_invariant(self);
        }
        StickyRouteTable { routes: self.routes.clone() }
    }
}

impl Default for StickyRouteTable {
    fn default() -> (t: Self)
        ensures
            t.routes() == Map::<u128, StickyRouteDecision>::empty(),
    {
        StickyRouteTable { routes: HashMap::new() }
    }
}

impl StickyRouteDecision {
    /// A second decision equal to this one.
    pub fn copied(&self) -> (d: Self)
        ensures
            d == *self,
    {
        StickyRouteDecision {
            session_id: self.session_id,
            sticky_header: self.sticky_header.clone(),
            sticky_key: self.sticky_key.clone(),
            backend_namespace: self.backend_namespace.clone(),
            backend_service: self.backend_service.clone(),
            backend_port: self.backend_port,
            worker_id: self.worker_id.clone(),
            device_ordinal: self.device_ordinal,
            model_id: self.model_id.clone(),
            lease_epoch: self.lease_epoch,
        }
    }
}

impl StickyRouteTable {
    /// The decisions, keyed by session id.
    pub closed spec fn routes(&self) -> Map<u128, StickyRouteDecision> {
        self.routes@
    }

    /// Every decision is filed under its own session id, and its sticky key
    /// is that id's UUID text.
    pub open spec fn well_keyed(&self) -> bool {
        forall|id: u128|
            #![trigger self.routes()[id]]
            self.routes().contains_key(id) ==> self.routes()[id].session_id.0 == id
                && self.routes()[id].sticky_key@ == uuid_text(id)
    }

    #[verifier::type_invariant]
    spec fn keyed_by_session(&self) -> bool {
        forall|id: u128|
            #![trigger self.routes@[id]]
            self.routes@.contains_key(id) ==> self.routes@[id].session_id.0 == id
                && self.routes@[id].sticky_key@ == uuid_text(id)
    }

    /// The decisions `policy` makes for the live sessions of `registry`.
    pub fn from_registry(registry: &SessionRegistry, policy: K8sRoutePolicy) -> (t: Self)
        ensures
            t.well_keyed(),
            t.routes().dom() == registry@.dom(),
            forall|id: u128|
                #![trigger t.routes()[id]]
                t.routes().contains_key(id) ==> decides(
                    t.routes()[id],
                    snapshot_of(id, registry@[id]),
                    policy,
                ),
    {
        let snapshots = registry.snapshots();
        let ghost snaps = snapshots@;
        let t = Self::from_snapshots(snapshots, policy);
        proof {
            assert forall|id: u128| #[trigger]
                t.routes().contains_key(id) <==> registry@.contains_key(id) by {
                lemma_last_snapshot_for(snaps, id);
                if registry@.contains_key(id) {
                    let i = choose|i: int| 0 <= i < snaps.len() && #[trigger] snaps[i].session_id.0 == id;
                    assert(snaps[i].session_id.0 == id);
                }
            }
            assert(t.routes().dom() =~= registry@.dom());
            assert forall|id: u128| #[trigger] t.routes().contains_key(id) implies decides(
                t.routes()[id],
                snapshot_of(id, registry@[id]),
                policy,
            ) by {
                lemma_last_snapshot_for(snaps, id);
                let i = choose|i: int|
                    0 <= i < snaps.len() && snaps[i] == last_snapshot_for(snaps, id)->0;
                assert(snaps[i] == snapshot_of(snaps[i].session_id.0, registry@[snaps[i].session_id.0]));
            }
        }
        t
    }

    /// Every decision, in ascending order of session id, which is also
    /// ascending order of the sticky keys' text.
    pub fn snapshot(&self) -> (r: Vec<StickyRouteDecision>)
        ensures
            forall|i: int, j: int|
                #![trigger r@[i], r@[j]]
                0 <= i < j < r@.len() ==> text_before(r@[i].sticky_key@, r@[j].sticky_key@),
            r@.len() == self.routes().dom().len(),
            forall|i: int|
                #![trigger r@[i]]
                0 <= i < r@.len() ==> self.routes().contains_key(r@[i].session_id.0) && r@[i]
                    == self.routes()[r@[i].session_id.0],
            forall|i: int, j: int|
                #![trigger r@[i], r@[j]]
                0 <= i < j < r@.len() ==> r@[i].session_id.0 < r@[j].session_id.0,
            forall|id: u128|
                #![trigger self.routes().contains_key(id)]
                self.routes().contains_key(id) ==> exists|i: int|
                    0 <= i < r@.len() && #[trigger] r@[i].session_id.0 == id,
    {
        proof {
            use_type_invariant(self);
        }
        let ids = map_keys(&self.routes);
        let sorted = sort_ids(&ids);
        let mut out: Vec<StickyRouteDecision> = Vec::new();
        let mut i: usize = 0;
        while i < sorted.len()
            invariant
                i <= sorted@.len(),
                self.well_keyed(),
                sorted@.to_set() == self.routes@.dom(),
                ascending(sorted@),
                out@.len() == i,
                forall|j: int|
                    #![trigger out@[j]]
                    0 <= j < i ==> out@[j].session_id.0 == sorted@[j] && self.routes@.contains_key(
                        sorted@[j],
                    ) && out@[j] == self.routes@[sorted@[j]],
            decreases sorted@.len() - i,
        {
            let id = sorted[i];
            proof {
                assert(sorted@.to_set().contains(id));
            }
            match self.routes.get(&id) {
                Some(d) => {
                    assert(self.routes()[id].session_id.0 == id);
                    out.push(d.copied());
                },
                None => {},
            }
            i = i + 1;
        }
        proof {
            assert forall|id: u128| #[trigger] self.routes().contains_key(id) implies exists|k: int|
                0 <= k < out@.len() && #[trigger] out@[k].session_id.0 == id by {
                assert(sorted@.to_set().contains(id));
                let k = choose|k: int| 0 <= k < sorted@.len() && sorted@[k] == id;
                assert(out@[k].session_id.0 == id);
            }
            assert forall|a: int, b: int| 0 <= a < b < out@.len() implies text_before(
                #[trigger] out@[a].sticky_key@,
                #[trigger] out@[b].sticky_key@,
            ) by {
                assert(out@[a] == self.routes@[sorted@[a]] && out@[b] == self.routes@[sorted@[b]]);
                lemma_uuid_text_order(sorted@[a], sorted@[b]);
            }
        }
        out
    }

    /// The decisions `policy` makes for `snapshots`: one per session, from
    /// the last snapshot of that session.
    pub fn from_snapshots(snapshots: Vec<SessionSnapshot>, policy: K8sRoutePolicy) -> (t: Self)
        ensures
            t.well_keyed(),
            forall|id: u128|
                #![trigger t.routes().contains_key(id)]
                t.routes().contains_key(id) <==> last_snapshot_for(snapshots@, id) is Some,
            forall|id: u128|
                #![trigger t.routes()[id]]
                t.routes().contains_key(id) ==> decides(
                    t.routes()[id],
                    last_snapshot_for(snapshots@, id)->0,
                    policy,
                ),
    {
        let mut routes: HashMap<u128, StickyRouteDecision> = HashMap::new();
        let mut i: usize = 0;
        while i < snapshots.len()
            invariant
                i <= snapshots@.len(),
                forall|id: u128|
                    #![trigger routes@[id]]
                    routes@.contains_key(id) ==> routes@[id].session_id.0 == id
                        && routes@[id].sticky_key@ == uuid_text(id),
                forall|id: u128|
                    #![trigger routes@.contains_key(id)]
                    routes@.contains_key(id) <==> last_snapshot_for(
                        snapshots@.take(i as int),
                        id,
                    ) is Some,
                forall|id: u128|
                    #![trigger routes@[id]]
                    routes@.contains_key(id) ==> decides(
                        routes@[id],
                        last_snapshot_for(snapshots@.take(i as int), id)->0,
                        policy,
                    ),
            decreases snapshots@.len() - i,
        {
            let snapshot = &snapshots[i];
            proof {
                lemma_last_snapshot_for(snapshots@.take(i as int), snapshot.session_id.0);
            }
            let decision = policy.decide(snapshot);
            routes.insert(snapshot.session_id.0, decision);
            proof {
                let prefix = snapshots@.take(i + 1);
                assert(prefix.drop_last() =~= snapshots@.take(i as int));
                assert(prefix.last() == *snapshot);
            }
            i = i + 1;
        }
        proof {
            assert(snapshots@.take(snapshots@.len() as int) =~= snapshots@);
        }
        let t = StickyRouteTable { routes };
        proof {
            assert forall|id: u128| #[trigger] t.routes().contains_key(id) implies t.routes()[id].session_id.0
                == id && t.routes()[id].sticky_key@ == uuid_text(id) by {
                assert(routes@[id].session_id.0 == id);
            }
        }
        t
    }

    /// The decision for one session, if the table has one.
    pub fn route(&self, session_id: SessionId) -> (d: Option<&StickyRouteDecision>)
        ensures
            match d {
                Some(d) => self.routes().contains_key(session_id.0) && *d == self.routes()[session_id.0],
                None => !self.routes().contains_key(session_id.0),
            },
    {
        self.routes.get(&session_id.0)
    }
}

/// A worker's backend service is the policy's prefix, a hyphen, and a DNS
/// label: the worker id's lower-cased runs of letters and digits joined by
/// single hyphens (`worker` when it has none).
pub proof fn lemma_backend_service_shape(prefix: Seq<char>, worker_id: Seq<char>)
    ensures
        ({
            let s = backend_service_name(prefix, worker_id);
            &&& s.len() > prefix.len() + 1
            &&& s.subrange(0, prefix.len() as int) == prefix
            &&& s[prefix.len() as int] == '-'
            &&& s.subrange(prefix.len() as int + 1, s.len() as int) == dns_label(worker_id)
            &&& is_dns_label(s.subrange(prefix.len() as int + 1, s.len() as int))
        }),
{
    lemma_dns_label_shape(worker_id);
    let s = backend_service_name(prefix, worker_id);
    assert(s.subrange(0, prefix.len() as int) =~= prefix);
    assert(s.subrange(prefix.len() as int + 1, s.len() as int) =~= dns_label(worker_id));
}

/// A route decision carries the policy's sticky header, namespace and
/// port, the session id and its UUID text as the sticky key, the backend
/// service for the session's worker, and the session's worker id, GPU
/// ordinal, model id and lease epoch.
pub proof fn lemma_route_decision_fields(d: StickyRouteDecision, s: SessionSnapshot, policy: K8sRoutePolicy)
    requires
        decides(d, s, policy),
    ensures
        d.session_id == s.session_id,
        d.sticky_header == policy.sticky_header,
        d.sticky_key@ == uuid_text(s.session_id.0),
        d.backend_namespace == policy.backend_namespace,
        d.backend_port == policy.backend_port,
        d.backend_service@.subrange(0, policy.service_prefix@.len() as int) == policy.service_prefix@,
        d.backend_service@.subrange(policy.service_prefix@.len() as int + 1, d.backend_service@.len() as int)
            == dns_label(s.lease.worker_id@),
        d.worker_id == s.lease.worker_id,
        d.device_ordinal == s.lease.device_ordinal,
        d.model_id == s.lease.model_id,
        d.lease_epoch == s.lease_epoch,
{
    lemma_backend_service_shape(policy.service_prefix@, s.lease.worker_id@);
}

} // verus!
