//! Properties of the registry that span several operations.

use crate::instance::{lookup_port_of, EndpointView, InstanceView};
use crate::ordering::{lemma_rank_bound, lemma_rank_injective, rank, strictly_sorted, views_of};
use crate::registry::{
    balanced_candidate, balanced_cursor_key, cursor_value, find_balanced_post, find_post,
    heartbeat_post, identity, identity_matches, identity_of, is_live, list_post, port_candidate,
    port_cursor_key, refreshes, register_post, registered_instance, unregister_post, with_timestamp, RegistryError,
    RegistryView,
};
use crate::text::{decimal, lemma_decimal_injective};
use crate::versioning::{semver_requirement_matches, semver_requirement_parses, version_satisfies};
use vstd::prelude::*;

verus! {

broadcast use vstd::set::group_set_axioms;

/// A successful registration stores the registered instance, live at the
/// time of registration.
proof fn lemma_registration_stored(
    s0: RegistryView,
    s1: RegistryView,
    name: Seq<char>,
    version: Seq<char>,
    ip: Seq<char>,
    port: u16,
    external: Option<EndpointView>,
    now: u64,
    r1: Result<String, RegistryError>,
)
    requires
        register_post(s0, s1, name, version, ip, port, external, now, r1),
        r1 is Ok,
    ensures
        s1.services.contains(registered_instance(name, version, ip, port, external, now)),
        crate::versioning::semver_version_parses(version),
        s1.ttl_secs == s0.ttl_secs,
{
}

/// Whatever a successful registration stores can be found by a load-balanced
/// lookup for its name with a requirement its version satisfies, made at the
/// time of registration; what the lookup returns has that name and satisfies
/// the requirement.
pub proof fn law_registered_instance_is_discoverable(
    s0: RegistryView,
    s1: RegistryView,
    s2: RegistryView,
    name: Seq<char>,
    version: Seq<char>,
    ip: Seq<char>,
    port: u16,
    external: Option<EndpointView>,
    now: u64,
    r1: Result<String, RegistryError>,
    requirement: Seq<char>,
    r2: Result<Option<crate::instance::ServiceInstance>, RegistryError>,
)
    requires
        s1.wf(),
        register_post(s0, s1, name, version, ip, port, external, now, r1),
        r1 is Ok,
        find_balanced_post(s1, s2, name, requirement, now, r2),
        semver_requirement_parses(requirement),
        semver_requirement_matches(requirement, version),
    ensures
        r2 matches Ok(Some(inst)) && inst@.name == name && version_satisfies(requirement, inst@.version),
{
    lemma_registration_stored(s0, s1, name, version, ip, port, external, now, r1);
    let inst = registered_instance(name, version, ip, port, external, now);
    let cands = s1.live(now).filter(|v: InstanceView| balanced_candidate(v, name, requirement));
    assert(s1.live(now).contains(inst));
    assert(cands.contains(inst));
    assert(cands.finite());
    assert(cands.len() != 0);
}

/// Whatever a successful registration stores can be found, at the time of
/// registration, by a port-specific lookup on its lookup port (the external
/// port when it registered one, else its own port).
pub proof fn law_registered_instance_is_found_on_its_port(
    s0: RegistryView,
    s1: RegistryView,
    s2: RegistryView,
    name: Seq<char>,
    version: Seq<char>,
    ip: Seq<char>,
    port: u16,
    external: Option<EndpointView>,
    now: u64,
    r1: Result<String, RegistryError>,
    requirement: Seq<char>,
    r2: Result<Option<crate::instance::ServiceInstance>, RegistryError>,
)
    requires
        s1.wf(),
        register_post(s0, s1, name, version, ip, port, external, now, r1),
        r1 is Ok,
        find_post(
            s1,
            s2,
            name,
            requirement,
            lookup_port_of(registered_instance(name, version, ip, port, external, now)),
            now,
            r2,
        ),
        semver_requirement_parses(requirement),
        semver_requirement_matches(requirement, version),
    ensures
        r2 matches Ok(Some(inst)) && inst@.name == name && version_satisfies(requirement, inst@.version)
            && lookup_port_of(inst@) == lookup_port_of(
            registered_instance(name, version, ip, port, external, now),
        ),
{
    lemma_registration_stored(s0, s1, name, version, ip, port, external, now, r1);
    let inst = registered_instance(name, version, ip, port, external, now);
    let lp = lookup_port_of(inst);
    let cands = s1.live(now).filter(|v: InstanceView| port_candidate(v, name, requirement, lp));
    assert(s1.live(now).contains(inst));
    assert(cands.contains(inst));
    assert(cands.finite());
    assert(cands.len() != 0);
}

/// Registering the same identity again answers the same key and leaves a
/// single instance with that identity: the one just registered.
pub proof fn law_reregistration_replaces(
    s0: RegistryView,
    s1: RegistryView,
    s2: RegistryView,
    name: Seq<char>,
    version: Seq<char>,
    ip: Seq<char>,
    port: u16,
    external1: Option<EndpointView>,
    external2: Option<EndpointView>,
    now1: u64,
    now2: u64,
    r1: Result<String, RegistryError>,
    r2: Result<String, RegistryError>,
)
    requires
        register_post(s0, s1, name, version, ip, port, external1, now1, r1),
        register_post(s1, s2, name, version, ip, port, external2, now2, r2),
        r1 is Ok,
    ensures
        r2 matches Ok(k2) && r1 matches Ok(k1) && k1@ == k2@,
        s2.services.contains(registered_instance(name, version, ip, port, external2, now2)),
        forall|v: InstanceView|
            #[trigger] s2.services.contains(v) && identity_of(v) == identity(name, version, ip, port)
                ==> v == registered_instance(name, version, ip, port, external2, now2),
{
}

/// A heartbeat within the lease of a registration refreshes that very
/// registration: the store now holds it with the heartbeat's time, and the
/// heartbeat returns it.
pub proof fn law_heartbeat_refreshes_registration(
    s0: RegistryView,
    s1: RegistryView,
    s2: RegistryView,
    name: Seq<char>,
    version: Seq<char>,
    ip: Seq<char>,
    port: u16,
    external: Option<EndpointView>,
    now1: u64,
    now2: u64,
    r1: Result<String, RegistryError>,
    r2: Result<crate::instance::ServiceInstance, RegistryError>,
)
    requires
        s1.wf(),
        register_post(s0, s1, name, version, ip, port, external, now1, r1),
        r1 is Ok,
        now1 <= now2 <= now1 + s1.ttl_secs,
        heartbeat_post(s1, s2, name, version, ip, port, now2, r2),
    ensures
        r2 matches Ok(inst) && inst@ == with_timestamp(
            registered_instance(name, version, ip, port, external, now1),
            now2,
        ),
        s2.services.contains(
            with_timestamp(registered_instance(name, version, ip, port, external, now1), now2),
        ),
{
    lemma_registration_stored(s0, s1, name, version, ip, port, external, now1, r1);
    let inst = registered_instance(name, version, ip, port, external, now1);
    let live = s1.live(now2);
    let k = identity(name, version, ip, port);
    assert(is_live(inst, s1.ttl_secs, now2));
    assert(live.contains(inst) && identity_of(inst) == k);
    let v = choose|v: InstanceView| identity_of(v) == k && #[trigger] refreshes(live, s2.services, v, now2, r2);
    assert(s1.services.contains(v));
    assert(s1.services.contains(inst));
}

/// A heartbeat that names a registration's external endpoint in place of its
/// own, within the lease, is accepted.
pub proof fn law_heartbeat_accepts_external_identity(
    s0: RegistryView,
    s1: RegistryView,
    s2: RegistryView,
    name: Seq<char>,
    version: Seq<char>,
    ip: Seq<char>,
    port: u16,
    external: EndpointView,
    now1: u64,
    now2: u64,
    r1: Result<String, RegistryError>,
    r2: Result<crate::instance::ServiceInstance, RegistryError>,
)
    requires
        register_post(s0, s1, name, version, ip, port, Some(external), now1, r1),
        r1 is Ok,
        now1 <= now2 <= now1 + s1.ttl_secs,
        heartbeat_post(s1, s2, name, version, external.ip, external.port, now2, r2),
    ensures
        r2 is Ok,
{
    lemma_registration_stored(s0, s1, name, version, ip, port, Some(external), now1, r1);
    let inst = registered_instance(name, version, ip, port, Some(external), now1);
    let live = s1.live(now2);
    assert(is_live(inst, s1.ttl_secs, now2));
    assert(live.contains(inst));
    assert(identity_matches(inst, name, version, external.ip, external.port));
    let k = identity(name, version, external.ip, external.port);
    if exists|v: InstanceView| live.contains(v) && identity_of(v) == k {
        let v = choose|v: InstanceView| identity_of(v) == k && #[trigger] refreshes(live, s2.services, v, now2, r2);
    } else {
        let v = choose|v: InstanceView|
            identity_matches(v, name, version, external.ip, external.port) && #[trigger] refreshes(
                live,
                s2.services,
                v,
                now2,
                r2,
            );
    }
}

/// Unregistering a registration within its lease returns it and removes it:
/// no later load-balanced lookup returns an instance with its identity.
pub proof fn law_unregistered_instance_is_gone(
    s0: RegistryView,
    s1: RegistryView,
    s2: RegistryView,
    s3: RegistryView,
    name: Seq<char>,
    version: Seq<char>,
    ip: Seq<char>,
    port: u16,
    external: Option<EndpointView>,
    now1: u64,
    now2: u64,
    now3: u64,
    r1: Result<String, RegistryError>,
    r2: Result<crate::instance::ServiceInstance, RegistryError>,
    any_name: Seq<char>,
    requirement: Seq<char>,
    r3: Result<Option<crate::instance::ServiceInstance>, RegistryError>,
)
    requires
        s1.wf(),
        register_post(s0, s1, name, version, ip, port, external, now1, r1),
        r1 is Ok,
        now1 <= now2 <= now1 + s1.ttl_secs,
        unregister_post(s1, s2, name, version, ip, port, now2, r2),
        find_balanced_post(s2, s3, any_name, requirement, now3, r3),
    ensures
        r2 matches Ok(inst) && inst@ == registered_instance(name, version, ip, port, external, now1),
        forall|v: InstanceView| #[trigger] s2.services.contains(v) ==> identity_of(v) != identity(
            name,
            version,
            ip,
            port,
        ),
        r3 matches Ok(Some(found)) ==> identity_of(found@) != identity(name, version, ip, port),
{
    lemma_registration_stored(s0, s1, name, version, ip, port, external, now1, r1);
    let inst = registered_instance(name, version, ip, port, external, now1);
    let live = s1.live(now2);
    let k = identity(name, version, ip, port);
    assert(is_live(inst, s1.ttl_secs, now2));
    assert(live.contains(inst) && identity_of(inst) == k);
    let v = choose|v: InstanceView|
        #![trigger live.contains(v)]
        live.contains(v) && identity_of(v) == k && s2.services == crate::registry::without_identity(live, k) && (
        r2 matches Ok(i) && i@ == v);
    assert(s1.services.contains(v));
    if semver_requirement_parses(requirement) {
        if let Ok(Some(found)) = r3 {
            let cands = s2.live(now3).filter(
                |w: InstanceView| balanced_candidate(w, any_name, requirement),
            );
            assert(cands.contains(found@));
            assert(s2.services.contains(found@));
        }
    }
}

/// Two load-balanced lookups in a row for the same request, at the same
/// time, hand out consecutive positions of the sorted candidates.
pub proof fn law_round_robin_advances(
    s0: RegistryView,
    s1: RegistryView,
    s2: RegistryView,
    name: Seq<char>,
    requirement: Seq<char>,
    now: u64,
    r1: Result<Option<crate::instance::ServiceInstance>, RegistryError>,
    r2: Result<Option<crate::instance::ServiceInstance>, RegistryError>,
)
    requires
        s0.wf(),
        find_balanced_post(s0, s1, name, requirement, now, r1),
        find_balanced_post(s1, s2, name, requirement, now, r2),
        semver_requirement_parses(requirement),
    ensures
        ({
            let cands = s0.live(now).filter(|v: InstanceView| balanced_candidate(v, name, requirement));
            cands.len() > 0 ==> (r1 matches Ok(Some(a)) && r2 matches Ok(Some(b)) && cands.contains(
                a@,
            ) && cands.contains(b@) && rank(b@, cands) == (rank(a@, cands) + 1) % cands.len())
        }),
{
    let cands = s0.live(now).filter(|v: InstanceView| balanced_candidate(v, name, requirement));
    let cands1 = s1.live(now).filter(|v: InstanceView| balanced_candidate(v, name, requirement));
    assert(s1.live(now) =~= s0.live(now));
    assert(cands1 =~= cands);
    if cands.len() > 0 {
        let key = balanced_cursor_key(name, requirement);
        let n = cands.len();
        let c1 = cursor_value(s0.cursors, key);
        assert(c1 < usize::MAX);
        let c2 = cursor_value(s1.cursors, key);
        assert(c2 == ((c1 + 1) as nat) % n);
        vstd::arithmetic::div_mod::lemma_add_mod_noop_right(1, c1 as int, n as int);
        vstd::arithmetic::div_mod::lemma_mod_twice(c1 as int + 1, n as int);
    }
}

/// What a port-specific lookup returns is live at the lookup's time, has the
/// requested name and lookup port, and satisfies the requirement.
pub proof fn law_port_lookup_meets_request(
    s0: RegistryView,
    s1: RegistryView,
    name: Seq<char>,
    requirement: Seq<char>,
    port: u16,
    now: u64,
    r: Result<Option<crate::instance::ServiceInstance>, RegistryError>,
)
    requires
        find_post(s0, s1, name, requirement, port, now, r),
    ensures
        r matches Ok(Some(inst)) ==> inst@.name == name && lookup_port_of(inst@) == port
            && version_satisfies(requirement, inst@.version) && is_live(inst@, s0.ttl_secs, now)
            && s0.services.contains(inst@),
{
}

/// What a load-balanced lookup returns is live at the lookup's time, has the
/// requested name and satisfies the requirement.
pub proof fn law_balanced_lookup_meets_request(
    s0: RegistryView,
    s1: RegistryView,
    name: Seq<char>,
    requirement: Seq<char>,
    now: u64,
    r: Result<Option<crate::instance::ServiceInstance>, RegistryError>,
)
    requires
        find_balanced_post(s0, s1, name, requirement, now, r),
    ensures
        r matches Ok(Some(inst)) ==> inst@.name == name && version_satisfies(
            requirement,
            inst@.version,
        ) && is_live(inst@, s0.ttl_secs, now) && s0.services.contains(inst@),
{
}

/// A listing shows exactly the instances live at its time, in identity
/// order; a registration whose lease has lapsed is not among them.
pub proof fn law_expired_registration_is_not_listed(
    s0: RegistryView,
    s1: RegistryView,
    s2: RegistryView,
    name: Seq<char>,
    version: Seq<char>,
    ip: Seq<char>,
    port: u16,
    external: Option<EndpointView>,
    now1: u64,
    now2: u64,
    r1: Result<String, RegistryError>,
    listed: Seq<crate::instance::ServiceInstance>,
)
    requires
        register_post(s0, s1, name, version, ip, port, external, now1, r1),
        r1 is Ok,
        now2 > now1 + s1.ttl_secs,
        list_post(s1, s2, now2, listed),
    ensures
        !views_of(listed).contains(registered_instance(name, version, ip, port, external, now1)),
        forall|i: int| 0 <= i < listed.len() ==> is_live(#[trigger] listed[i]@, s1.ttl_secs, now2),
        strictly_sorted(views_of(listed)),
{
    let inst = registered_instance(name, version, ip, port, external, now1);
    assert(!is_live(inst, s1.ttl_secs, now2));
    if views_of(listed).contains(inst) {
        assert(views_of(listed).to_set().contains(inst));
    }
    assert forall|i: int| 0 <= i < listed.len() implies is_live(
        #[trigger] listed[i]@,
        s1.ttl_secs,
        now2,
    ) by {
        assert(views_of(listed)[i] == listed[i]@);
        assert(views_of(listed).to_set().contains(listed[i]@));
    }
}

/// Two registrations with different identities are both stored, whatever
/// their registry keys: registering the second keeps the first.
pub proof fn law_distinct_registrations_coexist(
    s0: RegistryView,
    s1: RegistryView,
    s2: RegistryView,
    name1: Seq<char>,
    version1: Seq<char>,
    ip1: Seq<char>,
    port1: u16,
    external1: Option<EndpointView>,
    name2: Seq<char>,
    version2: Seq<char>,
    ip2: Seq<char>,
    port2: u16,
    external2: Option<EndpointView>,
    now: u64,
    r1: Result<String, RegistryError>,
    r2: Result<String, RegistryError>,
)
    requires
        register_post(s0, s1, name1, version1, ip1, port1, external1, now, r1),
        r1 is Ok,
        register_post(s1, s2, name2, version2, ip2, port2, external2, now, r2),
        r2 is Ok,
        identity(name1, version1, ip1, port1) != identity(name2, version2, ip2, port2),
    ensures
        s2.services.contains(registered_instance(name1, version1, ip1, port1, external1, now)),
        s2.services.contains(registered_instance(name2, version2, ip2, port2, external2, now)),
{
    lemma_registration_stored(s0, s1, name1, version1, ip1, port1, external1, now, r1);
    let a = registered_instance(name1, version1, ip1, port1, external1, now);
    assert(is_live(a, s1.ttl_secs, now));
    assert(s1.live(now).contains(a));
}

/// An unregistration removes at most the instance with the given identity:
/// every other instance live at its time stays.
pub proof fn law_unregister_keeps_other_instances(
    s1: RegistryView,
    s2: RegistryView,
    name: Seq<char>,
    version: Seq<char>,
    ip: Seq<char>,
    port: u16,
    now: u64,
    r: Result<crate::instance::ServiceInstance, RegistryError>,
    other: InstanceView,
)
    requires
        unregister_post(s1, s2, name, version, ip, port, now, r),
        s1.services.contains(other),
        is_live(other, s1.ttl_secs, now),
        identity_of(other) != identity(name, version, ip, port),
    ensures
        s2.services.contains(other),
{
    assert(s1.live(now).contains(other));
}

/// A heartbeat refreshes at most one instance: every other instance live at
/// its time stays as it was.
pub proof fn law_heartbeat_keeps_other_instances(
    s1: RegistryView,
    s2: RegistryView,
    name: Seq<char>,
    version: Seq<char>,
    ip: Seq<char>,
    port: u16,
    now: u64,
    r: Result<crate::instance::ServiceInstance, RegistryError>,
    other: InstanceView,
)
    requires
        heartbeat_post(s1, s2, name, version, ip, port, now, r),
        s1.services.contains(other),
        is_live(other, s1.ttl_secs, now),
        r matches Ok(inst) ==> identity_of(other) != identity_of(inst@),
    ensures
        s2.services.contains(other),
{
    assert(s1.live(now).contains(other));
}

/// The candidates of a load-balanced lookup at `now`.
pub open spec fn balanced_candidates(
    s: RegistryView,
    name: Seq<char>,
    requirement: Seq<char>,
    now: u64,
) -> Set<InstanceView> {
    s.live(now).filter(|v: InstanceView| balanced_candidate(v, name, requirement))
}

/// The instance a lookup handed out (arbitrary when it handed out none).
pub open spec fn picked_view(r: Result<Option<crate::instance::ServiceInstance>, RegistryError>) -> InstanceView {
    match r {
        Ok(Some(x)) => x@,
        _ => arbitrary(),
    }
}

/// Position `i` steps after `r0` on a cycle of `n` positions, for `i <= n`.
pub open spec fn cycle_position(r0: int, i: int, n: int) -> int {
    if r0 + i < n {
        r0 + i
    } else {
        r0 + i - n
    }
}

/// `results[i]` is the answer of the load-balanced lookup made at
/// `times[i]` that took `states[i]` to `states[i + 1]`: a run of as many
/// lookups as there are candidates, starting from a well-formed registry,
/// during which the candidates (the live instances with the name whose
/// version meets the requirement) stay the same.
pub open spec fn balanced_run(
    states: Seq<RegistryView>,
    results: Seq<Result<Option<crate::instance::ServiceInstance>, RegistryError>>,
    times: Seq<u64>,
    name: Seq<char>,
    requirement: Seq<char>,
) -> bool {
    &&& states.len() == results.len() + 1
    &&& times.len() == results.len()
    &&& states[0].wf()
    &&& semver_requirement_parses(requirement)
    &&& results.len() > 0
    &&& results.len() == balanced_candidates(states[0], name, requirement, times[0]).len()
    &&& forall|i: int|
        #![trigger results[i]]
        0 <= i < results.len() ==> find_balanced_post(
            states[i],
            states[i + 1],
            name,
            requirement,
            times[i],
            results[i],
        ) && balanced_candidates(states[i], name, requirement, times[i]) == balanced_candidates(
            states[0],
            name,
            requirement,
            times[0],
        )
}

/// Along such a run the cursor of the lookup advances one position per
/// lookup.
proof fn lemma_balanced_run_prefix(
    states: Seq<RegistryView>,
    results: Seq<Result<Option<crate::instance::ServiceInstance>, RegistryError>>,
    times: Seq<u64>,
    name: Seq<char>,
    requirement: Seq<char>,
    i: int,
)
    requires
        balanced_run(states, results, times, name, requirement),
        0 <= i <= results.len(),
    ensures
        cursor_value(states[i].cursors, balanced_cursor_key(name, requirement)) < usize::MAX,
        cursor_value(states[i].cursors, balanced_cursor_key(name, requirement)) as int % (
        results.len() as int) == cycle_position(
            cursor_value(states[0].cursors, balanced_cursor_key(name, requirement)) as int % (
            results.len() as int),
            i,
            results.len() as int,
        ),
    decreases i,
{
    let key = balanced_cursor_key(name, requirement);
    let n = results.len() as int;
    let r0 = cursor_value(states[0].cursors, key) as int % n;
    vstd::arithmetic::div_mod::lemma_mod_bound(cursor_value(states[0].cursors, key) as int, n);
    if i == 0 {
        if states[0].cursors.contains_key(key) {
            assert(states[0].cursors[key] < usize::MAX);
        }
    } else {
        let p = i - 1;
        lemma_balanced_run_prefix(states, results, times, name, requirement, p);
        let sp = states[p];
        let si = states[i];
        assert(find_balanced_post(sp, si, name, requirement, times[p], results[p]));
        assert(balanced_candidates(sp, name, requirement, times[p]) == balanced_candidates(
            states[0],
            name,
            requirement,
            times[0],
        ));
        let c = cursor_value(sp.cursors, key);
        assert(cursor_value(si.cursors, key) as int == (c as int + 1) % n);
        vstd::arithmetic::div_mod::lemma_mod_bound(c as int + 1, n);
        vstd::arithmetic::div_mod::lemma_mod_twice(c as int + 1, n);
        vstd::arithmetic::div_mod::lemma_add_mod_noop_right(1, c as int, n);
        let q = cycle_position(r0, p, n);
        if q + 1 < n {
            vstd::arithmetic::div_mod::lemma_small_mod((q + 1) as nat, n as nat);
        } else {
            vstd::arithmetic::div_mod::lemma_mod_self_0(n);
        }
    }
}

/// As many load-balanced lookups in a row as there are candidates, made
/// while the candidates stay the same (at one time or at several), hand out
/// every candidate exactly once, in sorted order starting from the cursor's
/// position.
pub proof fn law_round_robin_visits_each_candidate_once(
    states: Seq<RegistryView>,
    results: Seq<Result<Option<crate::instance::ServiceInstance>, RegistryError>>,
    times: Seq<u64>,
    name: Seq<char>,
    requirement: Seq<char>,
)
    requires
        balanced_run(states, results, times, name, requirement),
    ensures
        ({
            let cands = balanced_candidates(states[0], name, requirement, times[0]);
            let n = cands.len() as int;
            let r0 = cursor_value(states[0].cursors, balanced_cursor_key(name, requirement)) as int % n;
            &&& forall|i: int|
                0 <= i < n ==> ((#[trigger] results[i]) matches Ok(Some(x)) && cands.contains(x@)
                    && x@.name == name && version_satisfies(requirement, x@.version) && rank(
                    x@,
                    cands,
                ) == cycle_position(r0, i, n))
            &&& forall|i: int, j: int|
                0 <= i < j < n ==> #[trigger] picked_view(results[i]) != #[trigger] picked_view(
                    results[j],
                )
            &&& forall|v: InstanceView|
                cands.contains(v) ==> exists|i: int|
                    0 <= i < n && #[trigger] picked_view(results[i]) == v
        }),
{
    let cands = balanced_candidates(states[0], name, requirement, times[0]);
    let n = cands.len() as int;
    let key = balanced_cursor_key(name, requirement);
    let r0 = cursor_value(states[0].cursors, key) as int % n;
    let t0 = times[0];
    vstd::arithmetic::div_mod::lemma_mod_bound(cursor_value(states[0].cursors, key) as int, n);
    states[0].services.lemma_len_filter(|v: InstanceView| is_live(v, states[0].ttl_secs, t0));
    states[0].live(t0).lemma_len_filter(|v: InstanceView| balanced_candidate(v, name, requirement));
    assert forall|i: int| 0 <= i < n implies ((#[trigger] results[i]) matches Ok(Some(x))
        && cands.contains(x@) && rank(x@, cands) == cycle_position(r0, i, n)) by {
        lemma_balanced_run_prefix(states, results, times, name, requirement, i);
        assert(find_balanced_post(states[i], states[i + 1], name, requirement, times[i], results[i]));
        assert(balanced_candidates(states[i], name, requirement, times[i]) == cands);
    }
    assert forall|i: int, j: int| 0 <= i < j < n implies #[trigger] picked_view(results[i])
        != #[trigger] picked_view(results[j]) by {
        assert(results[i] matches Ok(Some(x)) && rank(x@, cands) == cycle_position(r0, i, n));
        assert(results[j] matches Ok(Some(x)) && rank(x@, cands) == cycle_position(r0, j, n));
    }
    assert forall|v: InstanceView| cands.contains(v) implies exists|i: int|
        0 <= i < n && #[trigger] picked_view(results[i]) == v by {
        lemma_rank_bound(cands, v);
        let t = rank(v, cands) as int;
        let i = if t >= r0 {
            t - r0
        } else {
            t + n - r0
        };
        assert(results[i] matches Ok(Some(x)) && cands.contains(x@) && rank(x@, cands)
            == cycle_position(r0, i, n));
        let w = picked_view(results[i]);
        if w != v {
            assert(states[0].services.contains(w) && states[0].services.contains(v));
            if crate::ordering::same_identity(w, v) {
                assert(identity_of(w) == identity_of(v));
            }
            lemma_rank_injective(cands, w, v);
        }
    }
}

/// A load-balanced lookup for `name` and `requirement` changes no
/// round-robin cursor but the one keyed by the text `name:requirement`.
pub proof fn law_balanced_lookup_moves_only_its_own_cursor(
    s0: RegistryView,
    s1: RegistryView,
    name: Seq<char>,
    requirement: Seq<char>,
    now: u64,
    r: Result<Option<crate::instance::ServiceInstance>, RegistryError>,
)
    requires
        find_balanced_post(s0, s1, name, requirement, now, r),
    ensures
        s1.cursors.remove(name + seq![':'] + requirement) == s0.cursors.remove(
            name + seq![':'] + requirement,
        ),
{
    assert(s1.cursors.remove(name + seq![':'] + requirement) =~= s0.cursors.remove(
        name + seq![':'] + requirement,
    ));
}

/// A port-specific lookup for `name`, `requirement` and `port` changes no
/// round-robin cursor but the one keyed by the text
/// `name:requirement:port`, the port in decimal.
pub proof fn law_port_lookup_moves_only_its_own_cursor(
    s0: RegistryView,
    s1: RegistryView,
    name: Seq<char>,
    requirement: Seq<char>,
    port: u16,
    now: u64,
    r: Result<Option<crate::instance::ServiceInstance>, RegistryError>,
)
    requires
        find_post(s0, s1, name, requirement, port, now, r),
    ensures
        s1.cursors.remove(name + seq![':'] + requirement + seq![':'] + decimal(port as nat))
            == s0.cursors.remove(name + seq![':'] + requirement + seq![':'] + decimal(port as nat)),
{
    let k = name + seq![':'] + requirement + seq![':'] + decimal(port as nat);
    assert(s1.cursors.remove(k) =~= s0.cursors.remove(k));
}

/// Two load-balanced lookups for the same requirement at one time hand out
/// consecutive positions of the sorted candidates even when a lookup with
/// another requirement for the same name comes between them.
pub proof fn law_balanced_round_robin_ignores_other_requirements(
    s0: RegistryView,
    s1: RegistryView,
    s2: RegistryView,
    s3: RegistryView,
    name: Seq<char>,
    requirement: Seq<char>,
    other: Seq<char>,
    now: u64,
    r1: Result<Option<crate::instance::ServiceInstance>, RegistryError>,
    r2: Result<Option<crate::instance::ServiceInstance>, RegistryError>,
    r3: Result<Option<crate::instance::ServiceInstance>, RegistryError>,
)
    requires
        s0.wf(),
        semver_requirement_parses(requirement),
        requirement != other,
        find_balanced_post(s0, s1, name, requirement, now, r1),
        find_balanced_post(s1, s2, name, other, now, r2),
        find_balanced_post(s2, s3, name, requirement, now, r3),
    ensures
        ({
            let cands = balanced_candidates(s0, name, requirement, now);
            cands.len() > 0 ==> (r1 matches Ok(Some(a)) && r3 matches Ok(Some(b)) && cands.contains(
                a@,
            ) && cands.contains(b@) && rank(b@, cands) == (rank(a@, cands) + 1) % cands.len())
        }),
{
    let key = balanced_cursor_key(name, requirement);
    let okey = balanced_cursor_key(name, other);
    if key == okey {
        assert(key.skip(name.len() as int + 1) =~= requirement);
        assert(okey.skip(name.len() as int + 1) =~= other);
    }
    assert(s1.live(now) =~= s0.live(now));
    assert(s2.live(now) =~= s0.live(now));
    let cands = balanced_candidates(s0, name, requirement, now);
    assert(balanced_candidates(s2, name, requirement, now) == cands);
    if cands.len() > 0 {
        let n = cands.len();
        let c1 = cursor_value(s0.cursors, key);
        if s0.cursors.contains_key(key) {
            assert(s0.cursors[key] < usize::MAX);
        }
        let c2 = cursor_value(s1.cursors, key);
        assert(c2 == ((c1 + 1) as nat) % n);
        assert(cursor_value(s2.cursors, key) == c2);
        vstd::arithmetic::div_mod::lemma_mod_bound(c1 as int + 1, n as int);
        vstd::arithmetic::div_mod::lemma_mod_twice(c1 as int + 1, n as int);
        vstd::arithmetic::div_mod::lemma_add_mod_noop_right(1, c1 as int, n as int);
    }
}

/// Two port-specific lookups on the same port at one time hand out
/// consecutive positions of the sorted candidates even when a lookup on
/// another port comes between them.
pub proof fn law_port_round_robin_ignores_other_ports(
    s0: RegistryView,
    s1: RegistryView,
    s2: RegistryView,
    s3: RegistryView,
    name: Seq<char>,
    requirement: Seq<char>,
    port: u16,
    other_port: u16,
    now: u64,
    r1: Result<Option<crate::instance::ServiceInstance>, RegistryError>,
    r2: Result<Option<crate::instance::ServiceInstance>, RegistryError>,
    r3: Result<Option<crate::instance::ServiceInstance>, RegistryError>,
)
    requires
        s0.wf(),
        semver_requirement_parses(requirement),
        port != other_port,
        find_post(s0, s1, name, requirement, port, now, r1),
        find_post(s1, s2, name, requirement, other_port, now, r2),
        find_post(s2, s3, name, requirement, port, now, r3),
    ensures
        ({
            let cands = s0.live(now).filter(
                |v: InstanceView| port_candidate(v, name, requirement, port),
            );
            cands.len() > 0 ==> (r1 matches Ok(Some(a)) && r3 matches Ok(Some(b)) && cands.contains(
                a@,
            ) && cands.contains(b@) && rank(b@, cands) == (rank(a@, cands) + 1) % cands.len())
        }),
{
    let key = port_cursor_key(name, requirement, port);
    let okey = port_cursor_key(name, requirement, other_port);
    if key == okey {
        let prefix = name + seq![':'] + requirement + seq![':'];
        assert(key.skip(prefix.len() as int) =~= decimal(port as nat));
        assert(okey.skip(prefix.len() as int) =~= decimal(other_port as nat));
        lemma_decimal_injective(port as nat, other_port as nat);
    }
    assert(s1.live(now) =~= s0.live(now));
    assert(s2.live(now) =~= s0.live(now));
    let cands = s0.live(now).filter(|v: InstanceView| port_candidate(v, name, requirement, port));
    assert(s2.live(now).filter(|v: InstanceView| port_candidate(v, name, requirement, port)) == cands);
    if cands.len() > 0 {
        let n = cands.len();
        let c1 = cursor_value(s0.cursors, key);
        if s0.cursors.contains_key(key) {
            assert(s0.cursors[key] < usize::MAX);
        }
        let c2 = cursor_value(s1.cursors, key);
        assert(c2 == ((c1 + 1) as nat) % n);
        assert(cursor_value(s2.cursors, key) == c2);
        vstd::arithmetic::div_mod::lemma_mod_bound(c1 as int + 1, n as int);
        vstd::arithmetic::div_mod::lemma_mod_twice(c1 as int + 1, n as int);
        vstd::arithmetic::div_mod::lemma_add_mod_noop_right(1, c1 as int, n as int);
    }
}

} // verus!
