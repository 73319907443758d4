//! The in-memory registry of active service instances: registration,
//! heartbeat leases, expiry, semantic-version discovery and sorted
//! round-robin selection.

use crate::instance::{
    lookup_port_of, EndpointView, ExternalServiceEndpoint, InstanceView, ServiceInstance,
};
use crate::ordering::{
    lemma_sorted_no_duplicates, lemma_sorted_rank, rank, same_identity, sort_instances,
    strictly_sorted, views_of,
};
use crate::text::{decimal, push_char, push_decimal, push_str, str_equal};
use crate::versioning::{
    parse_requirement, parse_version, satisfies, semver_requirement_parses, semver_version_parses,
    version_satisfies, ParsedRequirement,
};
use vstd::prelude::*;

verus! {

/// Why a registry operation was refused.
#[derive(Debug)]
pub enum RegistryError {
    /// The service version is not a semantic version.
    InvalidVersion(String),
    /// The version requirement is not a semantic-version requirement.
    InvalidVersionRequirement(String),
    /// No live instance answers to the given identity.
    ServiceNotRegistered,
}

// ---------------------------------------------------------------------------
// Model
// ---------------------------------------------------------------------------

/// The registry key of an identity: name, version, ip and decimal port,
/// written one after the other. It is what a registration answers; the store
/// itself tells instances apart by their identity.
pub open spec fn instance_key(name: Seq<char>, version: Seq<char>, ip: Seq<char>, port: u16) -> Seq<char> {
    name + version + ip + decimal(port as nat)
}

/// The registry key of an instance.
pub open spec fn key_of(v: InstanceView) -> Seq<char> {
    instance_key(v.name, v.version, v.ip, v.port)
}

/// The identity of a registration: its name, version, internal ip and
/// internal port.
pub open spec fn identity(name: Seq<char>, version: Seq<char>, ip: Seq<char>, port: u16) -> (
    Seq<char>,
    Seq<char>,
    Seq<char>,
    u16,
) {
    (name, version, ip, port)
}

/// The identity of an instance.
pub open spec fn identity_of(v: InstanceView) -> (Seq<char>, Seq<char>, Seq<char>, u16) {
    identity(v.name, v.version, v.ip, v.port)
}

/// No two positions of `s` hold instances with the same identity.
pub open spec fn identities_unique(s: Seq<InstanceView>) -> bool {
    forall|i: int, j: int|
        0 <= i < s.len() && 0 <= j < s.len() && i != j ==> identity_of(#[trigger] s[i]) != identity_of(
            #[trigger] s[j],
        )
}

/// No two members of `s` share an identity.
pub open spec fn set_identities_unique(s: Set<InstanceView>) -> bool {
    forall|a: InstanceView, b: InstanceView|
        #![trigger s.contains(a), s.contains(b)]
        s.contains(a) && s.contains(b) && identity_of(a) == identity_of(b) ==> a == b
}

/// An instance is live at `now` while its last refresh plus the TTL has not
/// passed `now` (the sum saturates, which never matters against a `u64` time).
pub open spec fn is_live(v: InstanceView, ttl_secs: u64, now: u64) -> bool {
    v.timestamp + ttl_secs >= now
}

/// The members of `s` that are live at `now`.
pub open spec fn live_services(s: Set<InstanceView>, ttl_secs: u64, now: u64) -> Set<InstanceView> {
    s.filter(|v: InstanceView| is_live(v, ttl_secs, now))
}

/// The members of `s` whose identity is not `id`.
pub open spec fn without_identity(
    s: Set<InstanceView>,
    id: (Seq<char>, Seq<char>, Seq<char>, u16),
) -> Set<InstanceView> {
    s.filter(|v: InstanceView| identity_of(v) != id)
}

/// `v` refreshed at time `t`.
pub open spec fn with_timestamp(v: InstanceView, t: u64) -> InstanceView {
    InstanceView { timestamp: t, ..v }
}

/// The model of an optional external endpoint.
pub open spec fn opt_endpoint(e: Option<ExternalServiceEndpoint>) -> Option<EndpointView> {
    match e {
        Some(x) => Some(x@),
        None => None,
    }
}

/// The model of an optional instance.
pub open spec fn opt_instance(o: Option<ServiceInstance>) -> Option<InstanceView> {
    match o {
        Some(x) => Some(x@),
        None => None,
    }
}

/// The instance a registration stores.
pub open spec fn registered_instance(
    name: Seq<char>,
    version: Seq<char>,
    ip: Seq<char>,
    port: u16,
    external: Option<EndpointView>,
    now: u64,
) -> InstanceView {
    InstanceView {
        name,
        version,
        ip,
        port,
        timestamp: now,
        external_ip: match external {
            Some(e) => Some(e.ip),
            None => None,
        },
        external_port: match external {
            Some(e) => Some(e.port),
            None => None,
        },
        external_scheme: match external {
            Some(e) => Some(e.scheme),
            None => None,
        },
    }
}

/// A heartbeat's fallback identity match: same name and version, and either
/// the internal or the external endpoint is the given one.
pub open spec fn identity_matches(
    v: InstanceView,
    name: Seq<char>,
    version: Seq<char>,
    ip: Seq<char>,
    port: u16,
) -> bool {
    &&& v.name == name
    &&& v.version == version
    &&& (v.ip == ip && v.port == port) || (v.external_ip == Some(ip) && v.external_port == Some(
        port,
    ))
}

/// Candidates of a port-specific lookup.
pub open spec fn port_candidate(v: InstanceView, name: Seq<char>, requirement: Seq<char>, port: u16) -> bool {
    v.name == name && lookup_port_of(v) == port && version_satisfies(requirement, v.version)
}

/// Candidates of a load-balanced lookup.
pub open spec fn balanced_candidate(v: InstanceView, name: Seq<char>, requirement: Seq<char>) -> bool {
    v.name == name && version_satisfies(requirement, v.version)
}

/// The texts of a sequence of strings, in order.
pub open spec fn text_seq(s: Seq<String>) -> Seq<Seq<char>> {
    s.map_values(|x: String| x@)
}

/// The texts a sequence of strings holds.
pub open spec fn texts_of(s: Seq<String>) -> Set<Seq<char>> {
    text_seq(s).to_set()
}

/// Candidates of a port-specific lookup when the versions the requirement
/// admits are `accepted`.
pub open spec fn port_candidate_given(v: InstanceView, name: Seq<char>, port: u16, accepted: Set<Seq<char>>) -> bool {
    v.name == name && lookup_port_of(v) == port && accepted.contains(v.version)
}

/// Candidates of a load-balanced lookup when the versions the requirement
/// admits are `accepted`.
pub open spec fn balanced_candidate_given(v: InstanceView, name: Seq<char>, accepted: Set<Seq<char>>) -> bool {
    v.name == name && accepted.contains(v.version)
}

/// The round-robin cursor of a port-specific lookup: `name:requirement:port`.
pub open spec fn port_cursor_key(name: Seq<char>, requirement: Seq<char>, port: u16) -> Seq<char> {
    name + seq![':'] + requirement + seq![':'] + decimal(port as nat)
}

/// The round-robin cursor of a load-balanced lookup: `name:requirement`.
pub open spec fn balanced_cursor_key(name: Seq<char>, requirement: Seq<char>) -> Seq<char> {
    name + seq![':'] + requirement
}

/// A cursor's value, 0 when it was never used.
pub open spec fn cursor_value(cursors: Map<Seq<char>, usize>, k: Seq<char>) -> usize {
    if cursors.contains_key(k) {
        cursors[k]
    } else {
        0
    }
}

/// `c + 1`, saturating at `usize::MAX`.
pub open spec fn saturating_next(c: usize) -> usize {
    if c == usize::MAX {
        c
    } else {
        (c + 1) as usize
    }
}

/// Sorted round-robin selection among `candidates` with cursor `k`: none when
/// there is no candidate (cursors untouched); else the candidate whose rank in
/// the sorted order is the cursor modulo the number of candidates, and the
/// cursor moves on to the next position.
pub open spec fn round_robin(
    candidates: Set<InstanceView>,
    before: Map<Seq<char>, usize>,
    after: Map<Seq<char>, usize>,
    k: Seq<char>,
    picked: Option<InstanceView>,
) -> bool {
    if candidates.len() == 0 {
        picked is None && after == before
    } else {
        let c = cursor_value(before, k);
        let n = candidates.len();
        &&& n <= usize::MAX
        &&& picked matches Some(v) && candidates.contains(v) && rank(v, candidates) == (c as nat) % n
        &&& after == before.insert(k, ((saturating_next(c) as nat) % n) as usize)
    }
}

/// Mathematical model of a [`RegistryStore`].
pub struct RegistryView {
    /// The stored instances.
    pub services: Set<InstanceView>,
    /// Round-robin cursors by lookup key.
    pub cursors: Map<Seq<char>, usize>,
    /// Lease length in seconds.
    pub ttl_secs: u64,
}

impl RegistryView {
    /// Finitely many instances, no two with the same identity.
    pub open spec fn wf(self) -> bool {
        &&& self.services.finite()
        &&& set_identities_unique(self.services)
        &&& forall|k: Seq<char>| #[trigger] self.cursors.contains_key(k) ==> self.cursors[k] < usize::MAX
    }

    /// The instances still live at `now`.
    pub open spec fn live(self, now: u64) -> Set<InstanceView> {
        live_services(self.services, self.ttl_secs, now)
    }

    /// Same lease length and cursors, instances replaced by `services`.
    pub open spec fn keeps_all_but_services(self, other: RegistryView) -> bool {
        other.ttl_secs == self.ttl_secs && other.cursors == self.cursors
    }
}

/// What a registration does at time `now`, given whether its version is a
/// semantic version (`version_parses`).
pub open spec fn register_post_given(
    old: RegistryView,
    new: RegistryView,
    version_parses: bool,
    name: Seq<char>,
    version: Seq<char>,
    ip: Seq<char>,
    port: u16,
    external: Option<EndpointView>,
    now: u64,
    r: Result<String, RegistryError>,
) -> bool {
    &&& old.keeps_all_but_services(new)
    &&& if !version_parses {
        &&& new.services == old.services
        &&& (r matches Err(RegistryError::InvalidVersion(v)) && v@ == version)
    } else {
        let inst = registered_instance(name, version, ip, port, external, now);
        &&& new.services == without_identity(old.live(now), identity_of(inst)).insert(inst)
        &&& r matches Ok(k) && k@ == key_of(inst)
    }
}

/// What a registration does at time `now`, its version checked by `semver`.
pub open spec fn register_post(
    old: RegistryView,
    new: RegistryView,
    name: Seq<char>,
    version: Seq<char>,
    ip: Seq<char>,
    port: u16,
    external: Option<EndpointView>,
    now: u64,
    r: Result<String, RegistryError>,
) -> bool {
    register_post_given(old, new, semver_version_parses(version), name, version, ip, port, external, now, r)
}

/// `target` is a live instance that the operation refreshed at `now` and returned.
pub open spec fn refreshes(
    live: Set<InstanceView>,
    after: Set<InstanceView>,
    target: InstanceView,
    now: u64,
    r: Result<ServiceInstance, RegistryError>,
) -> bool {
    &&& live.contains(target)
    &&& r matches Ok(inst) && inst@ == with_timestamp(target, now)
    &&& after == without_identity(live, identity_of(target)).insert(with_timestamp(target, now))
}

/// What a heartbeat does at time `now`, given whether its version is a
/// semantic version (`version_parses`): refresh the live instance with the
/// given identity, else one whose internal or external endpoint matches,
/// else refuse.
pub open spec fn heartbeat_post_given(
    old: RegistryView,
    new: RegistryView,
    version_parses: bool,
    name: Seq<char>,
    version: Seq<char>,
    ip: Seq<char>,
    port: u16,
    now: u64,
    r: Result<ServiceInstance, RegistryError>,
) -> bool {
    &&& old.keeps_all_but_services(new)
    &&& if !version_parses {
        &&& new.services == old.services
        &&& (r matches Err(RegistryError::InvalidVersion(v)) && v@ == version)
    } else {
        let live = old.live(now);
        let k = identity(name, version, ip, port);
        if exists|v: InstanceView| live.contains(v) && identity_of(v) == k {
            exists|v: InstanceView| identity_of(v) == k && #[trigger] refreshes(live, new.services, v, now, r)
        } else if exists|v: InstanceView| live.contains(v) && identity_matches(v, name, version, ip, port) {
            exists|v: InstanceView|
                identity_matches(v, name, version, ip, port) && #[trigger] refreshes(
                    live,
                    new.services,
                    v,
                    now,
                    r,
                )
        } else {
            new.services == live && r matches Err(RegistryError::ServiceNotRegistered)
        }
    }
}

/// What a heartbeat does at time `now`, its version checked by `semver`.
pub open spec fn heartbeat_post(
    old: RegistryView,
    new: RegistryView,
    name: Seq<char>,
    version: Seq<char>,
    ip: Seq<char>,
    port: u16,
    now: u64,
    r: Result<ServiceInstance, RegistryError>,
) -> bool {
    heartbeat_post_given(old, new, semver_version_parses(version), name, version, ip, port, now, r)
}

/// What an unregistration does at time `now`, given whether its version is a
/// semantic version (`version_parses`).
pub open spec fn unregister_post_given(
    old: RegistryView,
    new: RegistryView,
    version_parses: bool,
    name: Seq<char>,
    version: Seq<char>,
    ip: Seq<char>,
    port: u16,
    now: u64,
    r: Result<ServiceInstance, RegistryError>,
) -> bool {
    &&& old.keeps_all_but_services(new)
    &&& if !version_parses {
        &&& new.services == old.services
        &&& (r matches Err(RegistryError::InvalidVersion(v)) && v@ == version)
    } else {
        let live = old.live(now);
        let k = identity(name, version, ip, port);
        if exists|v: InstanceView| live.contains(v) && identity_of(v) == k {
            exists|v: InstanceView|
                #![trigger live.contains(v)]
                live.contains(v) && identity_of(v) == k && new.services == without_identity(live, k) && (
                r matches Ok(inst) && inst@ == v)
        } else {
            new.services == live && r matches Err(RegistryError::ServiceNotRegistered)
        }
    }
}

/// What an unregistration does at time `now`, its version checked by
/// `semver`.
pub open spec fn unregister_post(
    old: RegistryView,
    new: RegistryView,
    name: Seq<char>,
    version: Seq<char>,
    ip: Seq<char>,
    port: u16,
    now: u64,
    r: Result<ServiceInstance, RegistryError>,
) -> bool {
    unregister_post_given(old, new, semver_version_parses(version), name, version, ip, port, now, r)
}

/// What a lookup does, given whether its requirement parses, its candidates,
/// its cursor key and the instances live at its time.
pub open spec fn lookup_post(
    old: RegistryView,
    new: RegistryView,
    requirement_parses: bool,
    requirement: Seq<char>,
    candidates: Set<InstanceView>,
    cursor: Seq<char>,
    r: Result<Option<ServiceInstance>, RegistryError>,
    live: Set<InstanceView>,
) -> bool {
    &&& new.ttl_secs == old.ttl_secs
    &&& if !requirement_parses {
        &&& new == old
        &&& (r matches Err(RegistryError::InvalidVersionRequirement(t)) && t@ == requirement)
    } else {
        &&& new.services == live
        &&& r matches Ok(picked) && round_robin(
            candidates,
            old.cursors,
            new.cursors,
            cursor,
            opt_instance(picked),
        )
    }
}

/// What a port-specific lookup does at time `now`.
pub open spec fn find_post(
    old: RegistryView,
    new: RegistryView,
    name: Seq<char>,
    requirement: Seq<char>,
    port: u16,
    now: u64,
    r: Result<Option<ServiceInstance>, RegistryError>,
) -> bool {
    lookup_post(
        old,
        new,
        semver_requirement_parses(requirement),
        requirement,
        old.live(now).filter(|v: InstanceView| port_candidate(v, name, requirement, port)),
        port_cursor_key(name, requirement, port),
        r,
        old.live(now),
    )
}

/// What a load-balanced lookup does at time `now`.
pub open spec fn find_balanced_post(
    old: RegistryView,
    new: RegistryView,
    name: Seq<char>,
    requirement: Seq<char>,
    now: u64,
    r: Result<Option<ServiceInstance>, RegistryError>,
) -> bool {
    lookup_post(
        old,
        new,
        semver_requirement_parses(requirement),
        requirement,
        old.live(now).filter(|v: InstanceView| balanced_candidate(v, name, requirement)),
        balanced_cursor_key(name, requirement),
        r,
        old.live(now),
    )
}

/// What a port-specific lookup does at time `now`, given the versions its
/// requirement admits (`None` when the requirement does not parse).
pub open spec fn find_post_given(
    old: RegistryView,
    new: RegistryView,
    name: Seq<char>,
    requirement: Seq<char>,
    port: u16,
    now: u64,
    accepted: Option<Set<Seq<char>>>,
    r: Result<Option<ServiceInstance>, RegistryError>,
) -> bool {
    lookup_post(
        old,
        new,
        accepted is Some,
        requirement,
        old.live(now).filter(|v: InstanceView| port_candidate_given(v, name, port, accepted->0)),
        port_cursor_key(name, requirement, port),
        r,
        old.live(now),
    )
}

/// What a load-balanced lookup does at time `now`, given the versions its
/// requirement admits (`None` when the requirement does not parse).
pub open spec fn find_balanced_post_given(
    old: RegistryView,
    new: RegistryView,
    name: Seq<char>,
    requirement: Seq<char>,
    now: u64,
    accepted: Option<Set<Seq<char>>>,
    r: Result<Option<ServiceInstance>, RegistryError>,
) -> bool {
    lookup_post(
        old,
        new,
        accepted is Some,
        requirement,
        old.live(now).filter(|v: InstanceView| balanced_candidate_given(v, name, accepted->0)),
        balanced_cursor_key(name, requirement),
        r,
        old.live(now),
    )
}

/// The versions a list of admitted versions holds, if there is a list.
pub open spec fn opt_texts(o: Option<&Vec<String>>) -> Option<Set<Seq<char>>> {
    match o {
        Some(v) => Some(texts_of(v@)),
        None => None,
    }
}

/// What listing does at time `now`: drop expired instances and return the live
/// ones sorted by identity.
pub open spec fn list_post(old: RegistryView, new: RegistryView, now: u64, listed: Seq<ServiceInstance>) -> bool {
    &&& old.keeps_all_but_services(new)
    &&& new.services == old.live(now)
    &&& strictly_sorted(views_of(listed))
    &&& views_of(listed).to_set() == old.live(now)
}

// ---------------------------------------------------------------------------
// Sequence lemmas
// ---------------------------------------------------------------------------

/// The first `i` elements of `s` kept by `p` are, as a set, what `out` holds;
/// `out` has unique identities and each of its elements comes from that
/// prefix.
pub open spec fn filtered_prefix(
    s: Seq<InstanceView>,
    out: Seq<InstanceView>,
    i: int,
    p: spec_fn(InstanceView) -> bool,
) -> bool {
    &&& 0 <= i <= s.len()
    &&& identities_unique(out)
    &&& out.to_set() == s.take(i).to_set().filter(p)
    &&& forall|m: int|
        #![trigger out[m]]
        0 <= m < out.len() ==> exists|j: int| 0 <= j < i && #[trigger] s[j] == out[m]
}

proof fn lemma_filtered_prefix_start(s: Seq<InstanceView>, p: spec_fn(InstanceView) -> bool)
    ensures
        filtered_prefix(s, Seq::empty(), 0, p),
{
    assert(Seq::<InstanceView>::empty().to_set() =~= s.take(0).to_set().filter(p));
}

proof fn lemma_filtered_prefix_step(
    s: Seq<InstanceView>,
    out: Seq<InstanceView>,
    i: int,
    p: spec_fn(InstanceView) -> bool,
)
    requires
        identities_unique(s),
        0 <= i < s.len(),
        filtered_prefix(s, out, i, p),
    ensures
        p(s[i]) ==> filtered_prefix(s, out.push(s[i]), i + 1, p),
        !p(s[i]) ==> filtered_prefix(s, out, i + 1, p),
{
    let t1 = s.take(i + 1);
    assert(t1 =~= s.take(i).push(s[i]));
    let next_set = t1.to_set().filter(p);
    if p(s[i]) {
        let o2 = out.push(s[i]);
        assert forall|a: int, b: int| 0 <= a < o2.len() && 0 <= b < o2.len() && a != b implies identity_of(
            #[trigger] o2[a],
        ) != identity_of(#[trigger] o2[b]) by {
            if a == out.len() {
                let j = choose|j: int| 0 <= j < i && #[trigger] s[j] == out[b];
                assert(identity_of(s[j]) != identity_of(s[i]));
            } else if b == out.len() {
                let j = choose|j: int| 0 <= j < i && #[trigger] s[j] == out[a];
                assert(identity_of(s[j]) != identity_of(s[i]));
            } else {
                assert(o2[a] == out[a] && o2[b] == out[b]);
            }
        }
        assert forall|x: InstanceView| o2.to_set().contains(x) <==> next_set.contains(x) by {
            if o2.to_set().contains(x) {
                let m = choose|m: int| 0 <= m < o2.len() && o2[m] == x;
                if m < out.len() {
                    assert(out[m] == x);
                    assert(out.to_set().contains(x));
                    assert(s.take(i).to_set().contains(x));
                    let j = choose|j: int| 0 <= j < i && s.take(i)[j] == x;
                    assert(t1[j] == x);
                } else {
                    assert(t1[i] == x);
                }
            }
            if next_set.contains(x) {
                let j = choose|j: int| 0 <= j < t1.len() && t1[j] == x;
                if j == i {
                    assert(o2[out.len() as int] == x);
                } else {
                    assert(s.take(i)[j] == x);
                    assert(s.take(i).to_set().filter(p).contains(x));
                    assert(out.to_set().contains(x));
                    let m = choose|m: int| 0 <= m < out.len() && out[m] == x;
                    assert(o2[m] == x);
                }
            }
        }
        assert(o2.to_set() =~= next_set);
        assert forall|m: int| #![trigger o2[m]] 0 <= m < o2.len() implies exists|j: int| 0 <= j < i + 1 && #[trigger] s[j] == o2[m] by {
            if m < out.len() {
                assert(o2[m] == out[m]);
                let j = choose|j: int| 0 <= j < i && #[trigger] s[j] == out[m];
                assert(s[j] == o2[m]);
            } else {
                assert(s[i] == o2[m]);
            }
        }
    } else {
        assert forall|x: InstanceView| out.to_set().contains(x) <==> next_set.contains(x) by {
            if out.to_set().contains(x) {
                assert(s.take(i).to_set().filter(p).contains(x));
                let j = choose|j: int| 0 <= j < i && s.take(i)[j] == x;
                assert(t1[j] == x);
            }
            if next_set.contains(x) {
                let j = choose|j: int| 0 <= j < t1.len() && t1[j] == x;
                if j == i {
                    assert(!p(x));
                } else {
                    assert(s.take(i)[j] == x);
                    assert(s.take(i).to_set().filter(p).contains(x));
                }
            }
        }
        assert(out.to_set() =~= next_set);
        assert forall|m: int| #![trigger out[m]] 0 <= m < out.len() implies exists|j: int| 0 <= j < i + 1 && #[trigger] s[j] == out[m] by {
            let j = choose|j: int| 0 <= j < i && #[trigger] s[j] == out[m];
            assert(s[j] == out[m]);
        }
    }
}

proof fn lemma_filtered_prefix_done(s: Seq<InstanceView>, out: Seq<InstanceView>, p: spec_fn(InstanceView) -> bool)
    requires
        filtered_prefix(s, out, s.len() as int, p),
    ensures
        out.to_set() == s.to_set().filter(p),
{
    assert(s.take(s.len() as int) =~= s);
}

/// A sequence with unique identities is, as a set, finite with unique
/// identities.
pub proof fn lemma_unique_set(s: Seq<InstanceView>)
    requires
        identities_unique(s),
    ensures
        s.to_set().finite(),
        set_identities_unique(s.to_set()),
{
    broadcast use vstd::seq_lib::group_seq_properties;

    assert forall|a: InstanceView, b: InstanceView|
        #![trigger s.to_set().contains(a), s.to_set().contains(b)]
        s.to_set().contains(a) && s.to_set().contains(b) && identity_of(a) == identity_of(b) implies a == b by {
        let i = choose|i: int| 0 <= i < s.len() && s[i] == a;
        let j = choose|j: int| 0 <= j < s.len() && s[j] == b;
        assert(i == j);
    }
}

/// Unique identities, stated with `same_identity`.
proof fn lemma_unique_distinct(s: Seq<InstanceView>)
    requires
        identities_unique(s),
    ensures
        crate::ordering::distinct_identities(s),
{
    assert forall|i: int, j: int| 0 <= i < s.len() && 0 <= j < s.len() && i != j implies !same_identity(
        #[trigger] s[i],
        #[trigger] s[j],
    ) by {
        if same_identity(s[i], s[j]) {
            assert(identity_of(s[i]) == identity_of(s[j]));
        }
    }
}

/// Replacing the element at `i` by one with the same identity.
proof fn lemma_update_same_identity(s: Seq<InstanceView>, i: int, x: InstanceView)
    requires
        identities_unique(s),
        0 <= i < s.len(),
        identity_of(x) == identity_of(s[i]),
    ensures
        identities_unique(s.update(i, x)),
        s.update(i, x).to_set() == without_identity(s.to_set(), identity_of(x)).insert(x),
{
    let t = s.update(i, x);
    assert forall|a: int, b: int| 0 <= a < t.len() && 0 <= b < t.len() && a != b implies identity_of(
        #[trigger] t[a],
    ) != identity_of(#[trigger] t[b]) by {
        if a == i {
            assert(identity_of(s[i]) != identity_of(s[b]));
        } else if b == i {
            assert(identity_of(s[i]) != identity_of(s[a]));
        } else {
            assert(identity_of(s[a]) != identity_of(s[b]));
        }
    }
    let rhs = without_identity(s.to_set(), identity_of(x)).insert(x);
    assert forall|y: InstanceView| t.to_set().contains(y) <==> rhs.contains(y) by {
        if t.to_set().contains(y) {
            let m = choose|m: int| 0 <= m < t.len() && t[m] == y;
            if m != i {
                assert(s[m] == y);
                assert(identity_of(s[m]) != identity_of(s[i]));
                assert(s.to_set().contains(y));
            }
        }
        if rhs.contains(y) && y != x {
            let m = choose|m: int| 0 <= m < s.len() && s[m] == y;
            assert(m != i);
            assert(t[m] == y);
        }
        if y == x {
            assert(t[i] == x);
        }
    }
    assert(t.to_set() =~= rhs);
}

/// Appending an element whose identity is new.
proof fn lemma_push_new_identity(s: Seq<InstanceView>, x: InstanceView)
    requires
        identities_unique(s),
        forall|j: int| 0 <= j < s.len() ==> identity_of(#[trigger] s[j]) != identity_of(x),
    ensures
        identities_unique(s.push(x)),
        s.push(x).to_set() == without_identity(s.to_set(), identity_of(x)).insert(x),
{
    let t = s.push(x);
    assert forall|a: int, b: int| 0 <= a < t.len() && 0 <= b < t.len() && a != b implies identity_of(
        #[trigger] t[a],
    ) != identity_of(#[trigger] t[b]) by {
        if a == s.len() {
            assert(identity_of(s[b]) != identity_of(x));
        } else if b == s.len() {
            assert(identity_of(s[a]) != identity_of(x));
        } else {
            assert(identity_of(s[a]) != identity_of(s[b]));
        }
    }
    let rhs = without_identity(s.to_set(), identity_of(x)).insert(x);
    assert forall|y: InstanceView| t.to_set().contains(y) <==> rhs.contains(y) by {
        if t.to_set().contains(y) {
            let m = choose|m: int| 0 <= m < t.len() && t[m] == y;
            if m < s.len() {
                assert(s[m] == y);
                assert(s.to_set().contains(y));
            }
        }
        if rhs.contains(y) && y != x {
            let m = choose|m: int| 0 <= m < s.len() && s[m] == y;
            assert(t[m] == y);
        }
        if y == x {
            assert(t[s.len() as int] == x);
        }
    }
    assert(t.to_set() =~= rhs);
}

/// Removing the element at `i`.
proof fn lemma_remove_at(s: Seq<InstanceView>, i: int)
    requires
        identities_unique(s),
        0 <= i < s.len(),
    ensures
        identities_unique(s.remove(i)),
        s.remove(i).to_set() == without_identity(s.to_set(), identity_of(s[i])),
{
    let t = s.remove(i);
    assert forall|a: int, b: int| 0 <= a < t.len() && 0 <= b < t.len() && a != b implies identity_of(
        #[trigger] t[a],
    ) != identity_of(#[trigger] t[b]) by {
        let a2 = if a < i {
            a
        } else {
            a + 1
        };
        let b2 = if b < i {
            b
        } else {
            b + 1
        };
        assert(t[a] == s[a2] && t[b] == s[b2]);
        assert(identity_of(s[a2]) != identity_of(s[b2]));
    }
    let rhs = without_identity(s.to_set(), identity_of(s[i]));
    assert forall|y: InstanceView| t.to_set().contains(y) <==> rhs.contains(y) by {
        if t.to_set().contains(y) {
            let m = choose|m: int| 0 <= m < t.len() && t[m] == y;
            let m2 = if m < i {
                m
            } else {
                m + 1
            };
            assert(s[m2] == y);
            assert(identity_of(s[m2]) != identity_of(s[i]));
            assert(s.to_set().contains(y));
        }
        if rhs.contains(y) {
            let m = choose|m: int| 0 <= m < s.len() && s[m] == y;
            assert(m != i);
            if m < i {
                assert(t[m] == y);
            } else {
                assert(t[m - 1] == y);
            }
        }
    }
    assert(t.to_set() =~= rhs);
}

// ---------------------------------------------------------------------------
// Round-robin cursors
// ---------------------------------------------------------------------------

/// A round-robin cursor: the next position to hand out for one lookup key.
pub struct RoundRobinCursor {
    key: String,
    next: usize,
}

/// The (key, next) pairs of a sequence of cursors.
pub closed spec fn cursor_entries(v: Seq<RoundRobinCursor>) -> Seq<(Seq<char>, usize)> {
    v.map_values(|c: RoundRobinCursor| (c.key@, c.next))
}

/// No two cursors share a key.
pub open spec fn entries_unique(e: Seq<(Seq<char>, usize)>) -> bool {
    forall|i: int, j: int| 0 <= i < e.len() && 0 <= j < e.len() && i != j ==> (#[trigger] e[i]).0 != (#[trigger] e[j]).0
}

/// Every cursor value is below `usize::MAX`.
pub open spec fn entries_bounded(e: Seq<(Seq<char>, usize)>) -> bool {
    forall|i: int| 0 <= i < e.len() ==> (#[trigger] e[i]).1 < usize::MAX
}

/// The cursor values by key.
pub open spec fn cursor_map(e: Seq<(Seq<char>, usize)>) -> Map<Seq<char>, usize> {
    Map::new(
        |k: Seq<char>| exists|i: int| 0 <= i < e.len() && (#[trigger] e[i]).0 == k,
        |k: Seq<char>| e[choose|i: int| 0 <= i < e.len() && (#[trigger] e[i]).0 == k].1,
    )
}

proof fn lemma_cursor_lookup(e: Seq<(Seq<char>, usize)>, i: int)
    requires
        entries_unique(e),
        0 <= i < e.len(),
    ensures
        cursor_map(e).contains_key(e[i].0),
        cursor_map(e)[e[i].0] == e[i].1,
{
    assert(cursor_map(e).contains_key(e[i].0));
    let j = choose|j: int| 0 <= j < e.len() && (#[trigger] e[j]).0 == e[i].0;
    assert(i == j);
}

proof fn lemma_cursor_set(e: Seq<(Seq<char>, usize)>, i: int, v: usize)
    requires
        entries_unique(e),
        0 <= i < e.len(),
    ensures
        entries_unique(e.update(i, (e[i].0, v))),
        cursor_map(e.update(i, (e[i].0, v))) == cursor_map(e).insert(e[i].0, v),
{
    let t = e.update(i, (e[i].0, v));
    assert forall|a: int, b: int| 0 <= a < t.len() && 0 <= b < t.len() && a != b implies (
    #[trigger] t[a]).0 != (#[trigger] t[b]).0 by {
        assert(t[a].0 == e[a].0 && t[b].0 == e[b].0);
    }
    let lhs = cursor_map(t);
    let rhs = cursor_map(e).insert(e[i].0, v);
    assert forall|k: Seq<char>| lhs.contains_key(k) <==> rhs.contains_key(k) by {
        if lhs.contains_key(k) {
            let j = choose|j: int| 0 <= j < t.len() && (#[trigger] t[j]).0 == k;
            assert(e[j].0 == k);
        }
        if rhs.contains_key(k) && k != e[i].0 {
            let j = choose|j: int| 0 <= j < e.len() && (#[trigger] e[j]).0 == k;
            assert(t[j].0 == k);
        }
        if k == e[i].0 {
            assert(t[i].0 == k);
        }
    }
    assert forall|k: Seq<char>| lhs.contains_key(k) implies lhs[k] == rhs[k] by {
        let j = choose|j: int| 0 <= j < t.len() && (#[trigger] t[j]).0 == k;
        lemma_cursor_lookup(t, j);
        if j != i {
            lemma_cursor_lookup(e, j);
        }
    }
    assert(lhs =~= rhs);
}

proof fn lemma_cursor_push(e: Seq<(Seq<char>, usize)>, k: Seq<char>, v: usize)
    requires
        entries_unique(e),
        forall|j: int| 0 <= j < e.len() ==> (#[trigger] e[j]).0 != k,
    ensures
        entries_unique(e.push((k, v))),
        cursor_map(e.push((k, v))) == cursor_map(e).insert(k, v),
        !cursor_map(e).contains_key(k),
{
    let t = e.push((k, v));
    assert forall|a: int, b: int| 0 <= a < t.len() && 0 <= b < t.len() && a != b implies (
    #[trigger] t[a]).0 != (#[trigger] t[b]).0 by {
        if a < e.len() && b < e.len() {
            assert(t[a] == e[a] && t[b] == e[b]);
        } else if a < e.len() {
            assert(t[a] == e[a]);
        } else {
            assert(t[b] == e[b]);
        }
    }
    let lhs = cursor_map(t);
    let rhs = cursor_map(e).insert(k, v);
    assert forall|q: Seq<char>| lhs.contains_key(q) <==> rhs.contains_key(q) by {
        if lhs.contains_key(q) && q != k {
            let j = choose|j: int| 0 <= j < t.len() && (#[trigger] t[j]).0 == q;
            assert(j < e.len());
            assert(e[j].0 == q);
        }
        if rhs.contains_key(q) && q != k {
            let j = choose|j: int| 0 <= j < e.len() && (#[trigger] e[j]).0 == q;
            assert(t[j].0 == q);
        }
        if q == k {
            assert(t[e.len() as int].0 == k);
        }
    }
    assert forall|q: Seq<char>| lhs.contains_key(q) implies lhs[q] == rhs[q] by {
        let j = choose|j: int| 0 <= j < t.len() && (#[trigger] t[j]).0 == q;
        lemma_cursor_lookup(t, j);
        if j < e.len() {
            assert(t[j] == e[j]);
            lemma_cursor_lookup(e, j);
        }
    }
    assert(lhs =~= rhs);
}

/// Whether `list` holds the text `t`.
fn contains_text(list: &Vec<String>, t: &str) -> (b: bool)
    ensures
        b == texts_of(list@).contains(t@),
{
    let n = list.len();
    let mut i: usize = 0;
    while i < n
        invariant
            n == list@.len(),
            i <= n,
            forall|j: int| 0 <= j < i ==> (#[trigger] list@[j])@ != t@,
        decreases n - i,
    {
        if str_equal(list[i].as_str(), t) {
            proof {
                assert(text_seq(list@)[i as int] == t@);
            }
            return true;
        }
        i = i + 1;
    }
    proof {
        if texts_of(list@).contains(t@) {
            let k = choose|k: int| 0 <= k < list@.len() && text_seq(list@)[k] == t@;
            assert(list@[k]@ == t@);
        }
    }
    false
}

/// How long ago the Unix epoch was on the system clock, with
/// `SystemTime::elapsed` on `UNIX_EPOCH`; `None` when the clock reads before
/// the epoch. Trusted, and nothing is stated of the value: it is whatever the
/// clock says.
#[verifier::external_body]
fn elapsed_since_epoch() -> Option<std::time::Duration> {
    std::time::UNIX_EPOCH.elapsed().ok()
}

/// The whole seconds of a duration, with `Duration::as_secs`. Trusted; the
/// duration is opaque here, so no clause ties the number to it.
#[verifier::external_body]
fn whole_seconds(d: &std::time::Duration) -> u64 {
    d.as_secs()
}

/// Seconds since the Unix epoch on the system clock, 0 when the clock reads
/// before the epoch.
pub fn current_unix_timestamp_secs() -> u64 {
    match elapsed_since_epoch() {
        Some(elapsed) => whole_seconds(&elapsed),
        None => 0,
    }
}

// ---------------------------------------------------------------------------
// The store
// ---------------------------------------------------------------------------

/// In-memory store of active service instances.
///
/// Instances are held in a `Vec` whose members have pairwise different
/// identities, and round-robin cursors in a `Vec` whose members have pairwise
/// different keys (both a type invariant); lookups search them linearly.
pub struct RegistryStore {
    services: Vec<ServiceInstance>,
    round_robin_cursors: Vec<RoundRobinCursor>,
    ttl_secs: u64,
}

impl View for RegistryStore {
    type V = RegistryView;

    closed spec fn view(&self) -> RegistryView {
        RegistryView {
            services: views_of(self.services@).to_set(),
            cursors: cursor_map(cursor_entries(self.round_robin_cursors@)),
            ttl_secs: self.ttl_secs,
        }
    }
}

impl RegistryStore {
    #[verifier::type_invariant]
    closed spec fn inv(&self) -> bool {
        &&& identities_unique(views_of(self.services@))
        &&& entries_unique(cursor_entries(self.round_robin_cursors@))
        &&& entries_bounded(cursor_entries(self.round_robin_cursors@))
    }

    proof fn lemma_wf(&self)
        requires
            self.inv(),
        ensures
            self@.wf(),
    {
        lemma_unique_set(self.service_views());
        let e = cursor_entries(self.round_robin_cursors@);
        assert forall|k: Seq<char>| #[trigger] self@.cursors.contains_key(k) implies self@.cursors[k]
            < usize::MAX by {
            let j = choose|j: int| 0 <= j < e.len() && (#[trigger] e[j]).0 == k;
            lemma_cursor_lookup(e, j);
        }
    }

    closed spec fn service_views(&self) -> Seq<InstanceView> {
        views_of(self.services@)
    }

    /// An empty registry whose leases last `ttl_secs` seconds.
    pub fn new(ttl_secs: u64) -> (store: Self)
        ensures
            store@.services == Set::<InstanceView>::empty(),
            store@.cursors == Map::<Seq<char>, usize>::empty(),
            store@.ttl_secs == ttl_secs,
            store@.wf(),
    {
        let store = RegistryStore {
            services: Vec::new(),
            round_robin_cursors: Vec::new(),
            ttl_secs,
        };
        assert(views_of(store.services@).to_set() =~= Set::<InstanceView>::empty());
        assert(cursor_map(cursor_entries(store.round_robin_cursors@)) =~= Map::<
            Seq<char>,
            usize,
        >::empty());
        store
    }

    /// The registry key of an identity.
    pub fn get_key(name: &str, version: &str, ip: &str, port: u16) -> (key: String)
        ensures
            key@ == instance_key(name@, version@, ip@, port),
    {
        let mut key = String::new();
        push_str(&mut key, name);
        push_str(&mut key, version);
        push_str(&mut key, ip);
        push_decimal(&mut key, port as u64);
        assert(key@ =~= instance_key(name@, version@, ip@, port));
        key
    }

    /// Drops the instances whose lease has run out at `now`.
    fn cleanup_expired(&mut self, now: u64)
        ensures
            final(self)@.services == old(self)@.live(now),
            old(self)@.keeps_all_but_services(final(self)@),
    {
        proof {
            use_type_invariant(&*self);
        }
        let ttl = self.ttl_secs;
        let ghost s = views_of(self.services@);
        let ghost p = |v: InstanceView| is_live(v, ttl, now);
        let mut kept: Vec<ServiceInstance> = Vec::new();
        proof {
            lemma_filtered_prefix_start(s, p);
            assert(views_of(kept@) =~= Seq::<InstanceView>::empty());
        }
        let n = self.services.len();
        let mut i: usize = 0;
        while i < n
            invariant
                n == self.services@.len(),
                s == views_of(self.services@),
                identities_unique(s),
                ttl == self.ttl_secs,
                p == (|v: InstanceView| is_live(v, ttl, now)),
                i <= n,
                filtered_prefix(s, views_of(kept@), i as int, p),
            decreases n - i,
        {
            proof {
                lemma_filtered_prefix_step(s, views_of(kept@), i as int, p);
            }
            let live = self.services[i].timestamp as u128 + ttl as u128 >= now as u128;
            if live {
                let ghost before = views_of(kept@);
                kept.push(self.services[i].clone());
                assert(views_of(kept@) =~= before.push(s[i as int]));
            }
            i = i + 1;
        }
        proof {
            lemma_filtered_prefix_done(s, views_of(kept@), p);
        }
        self.services = kept;
    }

    /// The position of the instance with the given identity, if any.
    fn position_of(&self, name: &str, version: &str, ip: &str, port: u16) -> (pos: Option<usize>)
        ensures
            pos matches Some(i) ==> i < self.service_views().len() && identity_of(
                self.service_views()[i as int],
            ) == identity(name@, version@, ip@, port),
            pos is None ==> forall|j: int|
                0 <= j < self.service_views().len() ==> identity_of(#[trigger] self.service_views()[j])
                    != identity(name@, version@, ip@, port),
    {
        let n = self.services.len();
        let mut i: usize = 0;
        while i < n
            invariant
                n == self.services@.len(),
                i <= n,
                forall|j: int|
                    0 <= j < i ==> identity_of(#[trigger] self.service_views()[j]) != identity(
                        name@,
                        version@,
                        ip@,
                        port,
                    ),
            decreases n - i,
        {
            let s = &self.services[i];
            if str_equal(s.name.as_str(), name) && str_equal(s.version.as_str(), version) && str_equal(
                s.ip.as_str(),
                ip,
            ) && s.port == port {
                return Some(i);
            }
            i = i + 1;
        }
        None
    }

    /// The position of an instance whose identity matches, if any.
    fn position_of_identity(&self, name: &String, version: &String, ip: &String, port: u16) -> (pos:
        Option<usize>)
        ensures
            pos matches Some(i) ==> i < self.service_views().len() && identity_matches(
                self.service_views()[i as int],
                name@,
                version@,
                ip@,
                port,
            ),
            pos is None ==> forall|j: int|
                0 <= j < self.service_views().len() ==> !identity_matches(
                    #[trigger] self.service_views()[j],
                    name@,
                    version@,
                    ip@,
                    port,
                ),
    {
        let n = self.services.len();
        let mut i: usize = 0;
        while i < n
            invariant
                n == self.services@.len(),
                i <= n,
                forall|j: int|
                    0 <= j < i ==> !identity_matches(
                        #[trigger] self.service_views()[j],
                        name@,
                        version@,
                        ip@,
                        port,
                    ),
            decreases n - i,
        {
            let s = &self.services[i];
            let matches_name = s.name == *name && s.version == *version;
            let matches_internal = s.ip == *ip && s.port == port;
            let matches_external = match (&s.external_ip, s.external_port) {
                (Some(eip), Some(eport)) => *eip == *ip && eport == port,
                _ => false,
            };
            if matches_name && (matches_internal || matches_external) {
                return Some(i);
            }
            i = i + 1;
        }
        None
    }

    /// Stores `inst`, replacing the instance with the same identity if there
    /// is one.
    fn upsert(&mut self, inst: ServiceInstance)
        ensures
            final(self)@.services == without_identity(old(self)@.services, identity_of(inst@)).insert(inst@),
            old(self)@.keeps_all_but_services(final(self)@),
    {
        proof {
            use_type_invariant(&*self);
        }
        let pos = self.position_of(inst.name.as_str(), inst.version.as_str(), inst.ip.as_str(), inst.port);
        let ghost sv = self.service_views();
        assert(identity_of(inst@) == identity(inst.name@, inst.version@, inst.ip@, inst.port));
        let mut services: Vec<ServiceInstance> = Vec::new();
        std::mem::swap(&mut services, &mut self.services);
        let ghost s = views_of(services@);
        assert(s == sv);
        match pos {
            Some(i) => {
                proof {
                    lemma_update_same_identity(s, i as int, inst@);
                }
                services.set(i, inst);
                assert(views_of(services@) =~= s.update(i as int, inst@));
            },
            None => {
                proof {
                    assert forall|j: int| 0 <= j < s.len() implies identity_of(#[trigger] s[j])
                        != identity_of(inst@) by {
                        assert(identity_of(sv[j]) != identity(
                            inst.name@,
                            inst.version@,
                            inst.ip@,
                            inst.port,
                        ));
                    }
                    lemma_push_new_identity(s, inst@);
                }
                services.push(inst);
                assert(views_of(services@) =~= s.push(inst@));
            },
        }
        self.services = services;
    }

    /// Registers (or re-registers) an instance at time `now`, given whether
    /// its version is a semantic version.
    pub fn register_parsed(
        &mut self,
        version_parses: bool,
        name: String,
        version: String,
        ip: String,
        port: u16,
        external_endpoint: Option<ExternalServiceEndpoint>,
        now: u64,
    ) -> (r: Result<String, RegistryError>)
        ensures
            register_post_given(
                old(self)@,
                final(self)@,
                version_parses,
                name@,
                version@,
                ip@,
                port,
                opt_endpoint(external_endpoint),
                now,
                r,
            ),
            final(self)@.wf(),
    {
        proof {
            use_type_invariant(&*self);
            self.lemma_wf();
        }
        if !version_parses {
            return Err(RegistryError::InvalidVersion(version));
        }
        self.cleanup_expired(now);
        let key = Self::get_key(name.as_str(), version.as_str(), ip.as_str(), port);
        let ghost ext = opt_endpoint(external_endpoint);
        let (external_ip, external_port, external_scheme) = match external_endpoint {
            Some(e) => (Some(e.ip), Some(e.port), Some(e.scheme)),
            None => (None, None, None),
        };
        let inst = ServiceInstance {
            name,
            version,
            ip,
            port,
            timestamp: now,
            external_ip,
            external_port,
            external_scheme,
        };
        assert(inst@ == registered_instance(inst.name@, inst.version@, inst.ip@, port, ext, now));
        self.upsert(inst);
        proof {
            use_type_invariant(&*self);
            self.lemma_wf();
        }
        Ok(key)
    }

    /// Registers (or re-registers) an instance at time `now`.
    pub fn register_at(
        &mut self,
        name: String,
        version: String,
        ip: String,
        port: u16,
        external_endpoint: Option<ExternalServiceEndpoint>,
        now: u64,
    ) -> (r: Result<String, RegistryError>)
        ensures
            register_post(
                old(self)@,
                final(self)@,
                name@,
                version@,
                ip@,
                port,
                opt_endpoint(external_endpoint),
                now,
                r,
            ),
            final(self)@.wf(),
    {
        let version_parses = parse_version(version.as_str()).is_some();
        self.register_parsed(version_parses, name, version, ip, port, external_endpoint, now)
    }

    /// Refreshes the instance at position `i` at time `now` and returns it.
    fn refresh_at(&mut self, i: usize, now: u64) -> (inst: ServiceInstance)
        requires
            i < old(self).service_views().len(),
        ensures
            inst@ == with_timestamp(old(self).service_views()[i as int], now),
            final(self)@.services == without_identity(
                old(self)@.services,
                identity_of(old(self).service_views()[i as int]),
            ).insert(inst@),
            old(self)@.keeps_all_but_services(final(self)@),
    {
        proof {
            use_type_invariant(&*self);
        }
        let mut services: Vec<ServiceInstance> = Vec::new();
        std::mem::swap(&mut services, &mut self.services);
        let ghost s = views_of(services@);
        let mut inst = services[i].clone();
        inst.timestamp = now;
        proof {
            lemma_update_same_identity(s, i as int, inst@);
        }
        let stored = inst.clone();
        services.set(i, stored);
        assert(views_of(services@) =~= s.update(i as int, inst@));
        self.services = services;
        inst
    }

    /// Refreshes the lease of a registered instance at time `now`, given
    /// whether its version is a semantic version.
    pub fn heartbeat_parsed(
        &mut self,
        version_parses: bool,
        name: String,
        version: String,
        ip: String,
        port: u16,
        now: u64,
    ) -> (r: Result<ServiceInstance, RegistryError>)
        ensures
            heartbeat_post_given(
                old(self)@,
                final(self)@,
                version_parses,
                name@,
                version@,
                ip@,
                port,
                now,
                r,
            ),
            final(self)@.wf(),
    {
        proof {
            use_type_invariant(&*self);
            self.lemma_wf();
        }
        if !version_parses {
            return Err(RegistryError::InvalidVersion(version));
        }
        self.cleanup_expired(now);
        let ghost live = self@.services;
        let ghost sv = self.service_views();
        let ghost id = identity(name@, version@, ip@, port);
        let exact = self.position_of(name.as_str(), version.as_str(), ip.as_str(), port);
        let r = match exact {
            Some(i) => {
                let inst = self.refresh_at(i, now);
                proof {
                    let v = sv[i as int];
                    assert(live.contains(v));
                    assert(refreshes(live, self@.services, v, now, Ok(inst)));
                }
                Ok(inst)
            },
            None => {
                proof {
                    assert forall|v: InstanceView| live.contains(v) implies identity_of(v) != id by {
                        let j = choose|j: int| 0 <= j < sv.len() && sv[j] == v;
                        assert(identity_of(sv[j]) != id);
                    }
                }
                match self.position_of_identity(&name, &version, &ip, port) {
                    Some(i) => {
                        let inst = self.refresh_at(i, now);
                        proof {
                            let v = sv[i as int];
                            assert(live.contains(v));
                            assert(refreshes(live, self@.services, v, now, Ok(inst)));
                        }
                        Ok(inst)
                    },
                    None => {
                        proof {
                            assert forall|v: InstanceView| live.contains(v) implies !identity_matches(
                                v,
                                name@,
                                version@,
                                ip@,
                                port,
                            ) by {
                                let j = choose|j: int| 0 <= j < sv.len() && sv[j] == v;
                                assert(!identity_matches(sv[j], name@, version@, ip@, port));
                            }
                        }
                        Err(RegistryError::ServiceNotRegistered)
                    },
                }
            },
        };
        proof {
            use_type_invariant(&*self);
            self.lemma_wf();
        }
        r
    }

    /// Refreshes the lease of a registered instance at time `now`.
    pub fn heartbeat_at(&mut self, name: String, version: String, ip: String, port: u16, now: u64) -> (r:
        Result<ServiceInstance, RegistryError>)
        ensures
            heartbeat_post(old(self)@, final(self)@, name@, version@, ip@, port, now, r),
            final(self)@.wf(),
    {
        let version_parses = parse_version(version.as_str()).is_some();
        self.heartbeat_parsed(version_parses, name, version, ip, port, now)
    }

    /// Removes a registered instance at time `now` and returns it, given
    /// whether its version is a semantic version.
    pub fn unregister_parsed(
        &mut self,
        version_parses: bool,
        name: String,
        version: String,
        ip: String,
        port: u16,
        now: u64,
    ) -> (r: Result<ServiceInstance, RegistryError>)
        ensures
            unregister_post_given(
                old(self)@,
                final(self)@,
                version_parses,
                name@,
                version@,
                ip@,
                port,
                now,
                r,
            ),
            final(self)@.wf(),
    {
        proof {
            use_type_invariant(&*self);
            self.lemma_wf();
        }
        if !version_parses {
            return Err(RegistryError::InvalidVersion(version));
        }
        let ghost id = identity(name@, version@, ip@, port);
        self.cleanup_expired(now);
        let ghost live = self@.services;
        let ghost sv = self.service_views();
        let r = match self.position_of(name.as_str(), version.as_str(), ip.as_str(), port) {
            Some(i) => {
                proof {
                    use_type_invariant(&*self);
                }
                let mut services: Vec<ServiceInstance> = Vec::new();
                std::mem::swap(&mut services, &mut self.services);
                proof {
                    lemma_remove_at(sv, i as int);
                }
                let removed = services.remove(i);
                assert(views_of(services@) =~= sv.remove(i as int));
                self.services = services;
                proof {
                    assert(live.contains(sv[i as int]));
                }
                Ok(removed)
            },
            None => {
                proof {
                    assert forall|v: InstanceView| live.contains(v) implies identity_of(v) != id by {
                        let j = choose|j: int| 0 <= j < sv.len() && sv[j] == v;
                        assert(identity_of(sv[j]) != id);
                    }
                }
                Err(RegistryError::ServiceNotRegistered)
            },
        };
        proof {
            use_type_invariant(&*self);
            self.lemma_wf();
        }
        r
    }

    /// Removes a registered instance at time `now` and returns it.
    pub fn unregister_at(&mut self, name: String, version: String, ip: String, port: u16, now: u64) -> (r:
        Result<ServiceInstance, RegistryError>)
        ensures
            unregister_post(old(self)@, final(self)@, name@, version@, ip@, port, now, r),
            final(self)@.wf(),
    {
        let version_parses = parse_version(version.as_str()).is_some();
        self.unregister_parsed(version_parses, name, version, ip, port, now)
    }

    /// Picks among `candidates` with the round-robin cursor `cursor_key`.
    fn select_round_robin(&mut self, cursor_key: String, candidates: Vec<ServiceInstance>) -> (picked:
        Option<ServiceInstance>)
        requires
            crate::ordering::distinct_identities(views_of(candidates@)),
        ensures
            round_robin(
                views_of(candidates@).to_set(),
                old(self)@.cursors,
                final(self)@.cursors,
                cursor_key@,
                opt_instance(picked),
            ),
            final(self)@.services == old(self)@.services,
            final(self)@.ttl_secs == old(self)@.ttl_secs,
    {
        proof {
            use_type_invariant(&*self);
        }
        let ghost cands = views_of(candidates@).to_set();
        if candidates.len() == 0 {
            assert(cands =~= Set::<InstanceView>::empty());
            return None;
        }
        let sorted = sort_instances(candidates);
        let n = sorted.len();
        proof {
            lemma_sorted_no_duplicates(views_of(sorted@));
            views_of(sorted@).unique_seq_to_set();
            assert(cands.len() == n);
        }
        let mut cursors: Vec<RoundRobinCursor> = Vec::new();
        std::mem::swap(&mut cursors, &mut self.round_robin_cursors);
        let ghost e = cursor_entries(cursors@);
        let m = cursors.len();
        let mut j: usize = 0;
        let mut found: Option<usize> = None;
        while j < m
            invariant
                m == cursors@.len(),
                e == cursor_entries(cursors@),
                j <= m,
                found matches Some(q) ==> q < m && e[q as int].0 == cursor_key@,
                found is None ==> forall|q: int| 0 <= q < j ==> (#[trigger] e[q]).0 != cursor_key@,
            decreases m - j,
        {
            if found.is_none() && cursors[j].key == cursor_key {
                found = Some(j);
            }
            j = j + 1;
        }
        let c: usize = match found {
            Some(q) => {
                proof {
                    lemma_cursor_lookup(e, q as int);
                }
                cursors[q].next
            },
            None => {
                proof {
                    lemma_cursor_push(e, cursor_key@, 0);
                }
                0
            },
        };
        assert(c == cursor_value(cursor_map(e), cursor_key@));
        let index = c % n;
        let next = if c == usize::MAX {
            c % n
        } else {
            (c + 1) % n
        };
        match found {
            Some(q) => {
                proof {
                    lemma_cursor_set(e, q as int, next);
                }
                let ghost before = cursors@;
                cursors.set(q, RoundRobinCursor { key: cursor_key, next });
                assert(cursor_entries(cursors@) =~= e.update(q as int, (e[q as int].0, next)));
            },
            None => {
                proof {
                    lemma_cursor_push(e, cursor_key@, next);
                }
                cursors.push(RoundRobinCursor { key: cursor_key, next });
                assert(cursor_entries(cursors@) =~= e.push((cursor_key@, next)));
            },
        }
        self.round_robin_cursors = cursors;
        let picked = sorted[index].clone();
        proof {
            lemma_sorted_rank(views_of(sorted@), index as int);
            assert(views_of(sorted@)[index as int] == picked@);
            assert(cands.contains(picked@));
        }
        Some(picked)
    }

    /// Port-specific lookup at time `now`, given the versions the
    /// requirement admits (`None` when it does not parse).
    pub fn find_parsed(
        &mut self,
        name: &str,
        version_requirement: &str,
        accepted: Option<&Vec<String>>,
        port: u16,
        now: u64,
    ) -> (r: Result<Option<ServiceInstance>, RegistryError>)
        ensures
            find_post_given(
                old(self)@,
                final(self)@,
                name@,
                version_requirement@,
                port,
                now,
                opt_texts(accepted),
                r,
            ),
            final(self)@.wf(),
    {
        proof {
            use_type_invariant(&*self);
            self.lemma_wf();
        }
        let list = match accepted {
            Some(list) => list,
            None => {
                return Err(
                    RegistryError::InvalidVersionRequirement(crate::text::copy_str(version_requirement)),
                );
            },
        };
        self.cleanup_expired(now);
        proof {
            use_type_invariant(&*self);
        }
        let ghost s = self.service_views();
        let ghost acc = texts_of(list@);
        let ghost p = |v: InstanceView| port_candidate_given(v, name@, port, acc);
        let mut candidates: Vec<ServiceInstance> = Vec::new();
        proof {
            lemma_filtered_prefix_start(s, p);
            assert(views_of(candidates@) =~= Seq::<InstanceView>::empty());
        }
        let n = self.services.len();
        let mut i: usize = 0;
        while i < n
            invariant
                n == self.services@.len(),
                s == self.service_views(),
                identities_unique(s),
                acc == texts_of(list@),
                p == (|v: InstanceView| port_candidate_given(v, name@, port, acc)),
                i <= n,
                filtered_prefix(s, views_of(candidates@), i as int, p),
            decreases n - i,
        {
            proof {
                lemma_filtered_prefix_step(s, views_of(candidates@), i as int, p);
            }
            let svc = &self.services[i];
            if str_equal(svc.name.as_str(), name) && svc.lookup_port() == port && contains_text(
                list,
                svc.version.as_str(),
            ) {
                let ghost before = views_of(candidates@);
                candidates.push(svc.clone());
                assert(views_of(candidates@) =~= before.push(s[i as int]));
            }
            i = i + 1;
        }
        proof {
            lemma_filtered_prefix_done(s, views_of(candidates@), p);
            lemma_unique_distinct(views_of(candidates@));
        }
        let mut cursor_key = String::new();
        push_str(&mut cursor_key, name);
        push_char(&mut cursor_key, ':');
        push_str(&mut cursor_key, version_requirement);
        push_char(&mut cursor_key, ':');
        push_decimal(&mut cursor_key, port as u64);
        assert(cursor_key@ =~= port_cursor_key(name@, version_requirement@, port));
        let picked = self.select_round_robin(cursor_key, candidates);
        proof {
            use_type_invariant(&*self);
            self.lemma_wf();
        }
        Ok(picked)
    }

    /// Load-balanced lookup at time `now`, given the versions the
    /// requirement admits (`None` when it does not parse).
    pub fn find_balanced_parsed(
        &mut self,
        name: &str,
        version_requirement: &str,
        accepted: Option<&Vec<String>>,
        now: u64,
    ) -> (r: Result<Option<ServiceInstance>, RegistryError>)
        ensures
            find_balanced_post_given(
                old(self)@,
                final(self)@,
                name@,
                version_requirement@,
                now,
                opt_texts(accepted),
                r,
            ),
            final(self)@.wf(),
    {
        proof {
            use_type_invariant(&*self);
            self.lemma_wf();
        }
        let list = match accepted {
            Some(list) => list,
            None => {
                return Err(
                    RegistryError::InvalidVersionRequirement(crate::text::copy_str(version_requirement)),
                );
            },
        };
        self.cleanup_expired(now);
        proof {
            use_type_invariant(&*self);
        }
        let ghost s = self.service_views();
        let ghost acc = texts_of(list@);
        let ghost p = |v: InstanceView| balanced_candidate_given(v, name@, acc);
        let mut candidates: Vec<ServiceInstance> = Vec::new();
        proof {
            lemma_filtered_prefix_start(s, p);
            assert(views_of(candidates@) =~= Seq::<InstanceView>::empty());
        }
        let n = self.services.len();
        let mut i: usize = 0;
        while i < n
            invariant
                n == self.services@.len(),
                s == self.service_views(),
                identities_unique(s),
                acc == texts_of(list@),
                p == (|v: InstanceView| balanced_candidate_given(v, name@, acc)),
                i <= n,
                filtered_prefix(s, views_of(candidates@), i as int, p),
            decreases n - i,
        {
            proof {
                lemma_filtered_prefix_step(s, views_of(candidates@), i as int, p);
            }
            let svc = &self.services[i];
            if str_equal(svc.name.as_str(), name) && contains_text(list, svc.version.as_str()) {
                let ghost before = views_of(candidates@);
                candidates.push(svc.clone());
                assert(views_of(candidates@) =~= before.push(s[i as int]));
            }
            i = i + 1;
        }
        proof {
            lemma_filtered_prefix_done(s, views_of(candidates@), p);
            lemma_unique_distinct(views_of(candidates@));
        }
        let mut cursor_key = String::new();
        push_str(&mut cursor_key, name);
        push_char(&mut cursor_key, ':');
        push_str(&mut cursor_key, version_requirement);
        assert(cursor_key@ =~= balanced_cursor_key(name@, version_requirement@));
        let picked = self.select_round_robin(cursor_key, candidates);
        proof {
            use_type_invariant(&*self);
            self.lemma_wf();
        }
        Ok(picked)
    }

    /// The versions of stored instances named `name` that `requirement`
    /// admits.
    fn admitted_versions(&self, name: &str, requirement: &ParsedRequirement) -> (list: Vec<String>)
        ensures
            forall|j: int|
                0 <= j < self.service_views().len() && (#[trigger] self.service_views()[j]).name
                    == name@ ==> (texts_of(list@).contains(self.service_views()[j].version)
                    <==> version_satisfies(requirement.text(), self.service_views()[j].version)),
            forall|t: Seq<char>|
                #[trigger] texts_of(list@).contains(t) ==> version_satisfies(requirement.text(), t),
    {
        let mut list: Vec<String> = Vec::new();
        let n = self.services.len();
        let mut i: usize = 0;
        while i < n
            invariant
                n == self.services@.len(),
                i <= n,
                forall|j: int|
                    0 <= j < i && (#[trigger] self.service_views()[j]).name == name@ ==> (texts_of(
                        list@,
                    ).contains(self.service_views()[j].version) <== version_satisfies(
                        requirement.text(),
                        self.service_views()[j].version,
                    )),
                forall|t: Seq<char>|
                    #[trigger] texts_of(list@).contains(t) ==> version_satisfies(requirement.text(), t),
            decreases n - i,
        {
            let svc = &self.services[i];
            if str_equal(svc.name.as_str(), name) && satisfies(requirement, svc.version.as_str()) {
                let ghost before = list@;
                list.push(svc.version.clone());
                proof {
                    assert(list@ =~= before.push(svc.version));
                    assert(text_seq(list@) =~= text_seq(before).push(
                        svc.version@,
                    ));
                    assert forall|t: Seq<char>| #[trigger] texts_of(list@).contains(t) implies (
                    texts_of(before).contains(t) || t == svc.version@) by {
                        let k = choose|k: int|
                            0 <= k < list@.len() && text_seq(list@)[k] == t;
                        if k < before.len() {
                            assert(text_seq(before)[k] == t);
                        }
                    }
                    assert forall|t: Seq<char>| #[trigger] texts_of(before).contains(t) implies texts_of(
                        list@,
                    ).contains(t) by {
                        let k = choose|k: int|
                            0 <= k < before.len() && text_seq(before)[k] == t;
                        assert(text_seq(list@)[k] == t);
                    }
                    assert(text_seq(list@)[before.len() as int] == svc.version@);
                }
            }
            i = i + 1;
        }
        proof {
            assert forall|j: int|
                0 <= j < self.service_views().len() && (#[trigger] self.service_views()[j]).name
                    == name@ implies (texts_of(list@).contains(self.service_views()[j].version)
                <==> version_satisfies(requirement.text(), self.service_views()[j].version)) by {
                if texts_of(list@).contains(self.service_views()[j].version) {
                }
            }
        }
        list
    }

    /// Port-specific lookup at time `now`.
    pub fn find_at(&mut self, name: &str, version_requirement: &str, port: u16, now: u64) -> (r: Result<
        Option<ServiceInstance>,
        RegistryError,
    >)
        ensures
            find_post(old(self)@, final(self)@, name@, version_requirement@, port, now, r),
            final(self)@.wf(),
    {
        proof {
            use_type_invariant(&*self);
        }
        match parse_requirement(version_requirement) {
            None => self.find_parsed(name, version_requirement, None, port, now),
            Some(requirement) => {
                let list = self.admitted_versions(name, &requirement);
                let ghost live = self@.live(now);
                let ghost acc = texts_of(list@);
                let ghost sv = self.service_views();
                proof {
                    assert(live.filter(|v: InstanceView| port_candidate(v, name@, version_requirement@, port))
                        =~= live.filter(|v: InstanceView| port_candidate_given(v, name@, port, acc))) by {
                        assert forall|v: InstanceView| #[trigger] live.contains(v) && v.name == name@ implies (
                        acc.contains(v.version) <==> version_satisfies(version_requirement@, v.version)) by {
                            let j = choose|j: int| 0 <= j < sv.len() && sv[j] == v;
                            assert(sv[j].name == name@);
                        }
                    }
                }
                self.find_parsed(name, version_requirement, Some(&list), port, now)
            },
        }
    }

    /// Load-balanced lookup at time `now`.
    pub fn find_balanced_at(&mut self, name: &str, version_requirement: &str, now: u64) -> (r: Result<
        Option<ServiceInstance>,
        RegistryError,
    >)
        ensures
            find_balanced_post(old(self)@, final(self)@, name@, version_requirement@, now, r),
            final(self)@.wf(),
    {
        proof {
            use_type_invariant(&*self);
        }
        match parse_requirement(version_requirement) {
            None => self.find_balanced_parsed(name, version_requirement, None, now),
            Some(requirement) => {
                let list = self.admitted_versions(name, &requirement);
                let ghost live = self@.live(now);
                let ghost acc = texts_of(list@);
                let ghost sv = self.service_views();
                proof {
                    assert(live.filter(|v: InstanceView| balanced_candidate(v, name@, version_requirement@))
                        =~= live.filter(|v: InstanceView| balanced_candidate_given(v, name@, acc))) by {
                        assert forall|v: InstanceView| #[trigger] live.contains(v) && v.name == name@ implies (
                        acc.contains(v.version) <==> version_satisfies(version_requirement@, v.version)) by {
                            let j = choose|j: int| 0 <= j < sv.len() && sv[j] == v;
                            assert(sv[j].name == name@);
                        }
                    }
                }
                self.find_balanced_parsed(name, version_requirement, Some(&list), now)
            },
        }
    }

    /// The live instances at time `now`, sorted by identity.
    pub fn list_at(&mut self, now: u64) -> (listed: Vec<ServiceInstance>)
        ensures
            list_post(old(self)@, final(self)@, now, listed@),
            final(self)@.wf(),
    {
        self.cleanup_expired(now);
        proof {
            use_type_invariant(&*self);
            self.lemma_wf();
        }
        let n = self.services.len();
        let mut all: Vec<ServiceInstance> = Vec::new();
        let mut i: usize = 0;
        while i < n
            invariant
                n == self.services@.len(),
                i <= n,
                views_of(all@) == self.service_views().take(i as int),
            decreases n - i,
        {
            let ghost before = views_of(all@);
            let item = self.services[i].clone();
            all.push(item);
            assert(views_of(all@) =~= before.push(item@));
            assert(self.service_views().take(i + 1) =~= self.service_views().take(i as int).push(
                self.service_views()[i as int],
            ));
            i = i + 1;
        }
        assert(self.service_views().take(n as int) =~= self.service_views());
        proof {
            lemma_unique_distinct(views_of(all@));
        }
        sort_instances(all)
    }

    /// Registers (or re-registers) an instance, stamped with the current time.
    pub fn register(
        &mut self,
        name: String,
        version: String,
        ip: String,
        port: u16,
        external_endpoint: Option<ExternalServiceEndpoint>,
    ) -> (r: Result<String, RegistryError>)
        ensures
            exists|now: u64|
                register_post(
                    old(self)@,
                    final(self)@,
                    name@,
                    version@,
                    ip@,
                    port,
                    opt_endpoint(external_endpoint),
                    now,
                    r,
                ),
            final(self)@.wf(),
    {
        let ghost ext = opt_endpoint(external_endpoint);
        let ghost (n0, v0, i0) = (name@, version@, ip@);
        let now = current_unix_timestamp_secs();
        let r = self.register_at(name, version, ip, port, external_endpoint, now);
        assert(register_post(old(self)@, self@, n0, v0, i0, port, ext, now, r));
        r
    }

    /// Refreshes the lease of a registered instance at the current time.
    pub fn heartbeat(&mut self, name: String, version: String, ip: String, port: u16) -> (r: Result<
        ServiceInstance,
        RegistryError,
    >)
        ensures
            exists|now: u64| heartbeat_post(old(self)@, final(self)@, name@, version@, ip@, port, now, r),
            final(self)@.wf(),
    {
        let ghost (n0, v0, i0) = (name@, version@, ip@);
        let now = current_unix_timestamp_secs();
        let r = self.heartbeat_at(name, version, ip, port, now);
        assert(heartbeat_post(old(self)@, self@, n0, v0, i0, port, now, r));
        r
    }

    /// Removes a registered instance and returns it.
    pub fn unregister(&mut self, name: String, version: String, ip: String, port: u16) -> (r: Result<
        ServiceInstance,
        RegistryError,
    >)
        ensures
            exists|now: u64|
                unregister_post(old(self)@, final(self)@, name@, version@, ip@, port, now, r),
            final(self)@.wf(),
    {
        let ghost (n0, v0, i0) = (name@, version@, ip@);
        let now = current_unix_timestamp_secs();
        let r = self.unregister_at(name, version, ip, port, now);
        assert(unregister_post(old(self)@, self@, n0, v0, i0, port, now, r));
        r
    }

    /// Port-specific lookup at the current time.
    pub fn find(&mut self, name: &str, version_requirement: &str, port: u16) -> (r: Result<
        Option<ServiceInstance>,
        RegistryError,
    >)
        ensures
            exists|now: u64| find_post(old(self)@, final(self)@, name@, version_requirement@, port, now, r),
            final(self)@.wf(),
    {
        let now = current_unix_timestamp_secs();
        let r = self.find_at(name, version_requirement, port, now);
        assert(find_post(old(self)@, self@, name@, version_requirement@, port, now, r));
        r
    }

    /// Load-balanced lookup at the current time.
    pub fn find_balanced(&mut self, name: &str, version_requirement: &str) -> (r: Result<
        Option<ServiceInstance>,
        RegistryError,
    >)
        ensures
            exists|now: u64| find_balanced_post(old(self)@, final(self)@, name@, version_requirement@, now, r),
            final(self)@.wf(),
    {
        let now = current_unix_timestamp_secs();
        let r = self.find_balanced_at(name, version_requirement, now);
        assert(find_balanced_post(old(self)@, self@, name@, version_requirement@, now, r));
        r
    }

    /// The live instances at the current time, sorted by identity.
    pub fn list(&mut self) -> (listed: Vec<ServiceInstance>)
        ensures
            exists|now: u64| list_post(old(self)@, final(self)@, now, listed@),
            final(self)@.wf(),
    {
        let now = current_unix_timestamp_secs();
        let listed = self.list_at(now);
        assert(list_post(old(self)@, self@, now, listed@));
        listed
    }
}

} // verus!
