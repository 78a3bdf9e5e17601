//! Which assignments discovery lists, in which order, and which a prune
//! removes.
use vstd::prelude::*;

use crate::activity::ActivityStateValue;
use crate::error::RegistryError;
use crate::naming::{normalize_component, normalized};
use crate::registry::Assignment;
use crate::text::{owned, push_str, str_equal};
use crate::timestamp::Timestamp;

verus! {

broadcast use vstd::string::group_string_axioms;

/// The filters of a discovery.
#[derive(Debug)]
pub struct DiscoverQuery {
    /// Only assignments in this realm (normalized).
    pub realm: Option<String>,
    /// Only assignments updated at or after this instant.
    pub cutoff: Option<Timestamp>,
    /// Whether assignments whose state is `stopped` are listed.
    pub include_stopped: bool,
}

/// An assignment whose reported state is `stopped`.
pub open spec fn is_stopped(a: Assignment) -> bool {
    a.state matches Some(s) && s.value == ActivityStateValue::Stopped
}

impl DiscoverQuery {
    /// The query for a realm, a window of recent hours and the `--all` flag.
    pub fn new(
        recent_hours: Option<i64>,
        realm: Option<&str>,
        include_stopped: bool,
        now: Timestamp,
    ) -> (r: Result<DiscoverQuery, RegistryError>)
        requires
            recent_hours matches Some(h) ==> (h >= 0 && (realm matches Some(x) ==> normalized(
                x@,
            ) is Some) ==> now.can_go_back_hours(h)),
        ensures
            recent_hours matches Some(h) ==> (h < 0 ==> (r matches Err(e) && e is NegativeRecent)),
            !(recent_hours matches Some(h) && h < 0) ==> {
                &&& r is Ok <==> (realm matches Some(x) ==> normalized(x@) is Some)
                &&& r matches Ok(q) ==> {
                    &&& q.include_stopped == include_stopped
                    &&& realm is None ==> q.realm is None
                    &&& realm matches Some(x) ==> (q.realm matches Some(y) && normalized(x@)
                        == Some(y@))
                    &&& recent_hours is None ==> q.cutoff is None
                    &&& recent_hours matches Some(h) ==> q.cutoff == Some(
                        Timestamp { secs: (now.secs - h * 3600) as i64, nanos: now.nanos },
                    )
                }
                &&& r matches Err(e) ==> (e matches RegistryError::InvalidComponent { kind: k }
                    && k@ == "realm"@)
            },
    {
        if let Some(h) = recent_hours {
            if h < 0 {
                return Err(RegistryError::NegativeRecent);
            }
        }
        let realm = match realm {
            Some(x) => Some(normalize_component(x, "realm")?),
            None => None,
        };
        let cutoff = match recent_hours {
            Some(h) => Some(now.hours_before(h)),
            None => None,
        };
        Ok(DiscoverQuery { realm, cutoff, include_stopped })
    }

    /// Whether the query lists `a`.
    pub open spec fn admits(self, a: Assignment) -> bool {
        &&& self.realm matches Some(r) ==> a.realm@ == r@
        &&& self.cutoff matches Some(c) ==> !a.updated_at.precedes(c)
        &&& !self.include_stopped ==> !is_stopped(a)
    }

    /// Whether the query lists `a`.
    pub fn lists(&self, a: &Assignment) -> (r: bool)
        ensures
            r == self.admits(*a),
            r <==> {
                &&& self.realm matches Some(x) ==> a.realm@ == x@
                &&& self.cutoff matches Some(c) ==> !a.updated_at.precedes(c)
                &&& !self.include_stopped ==> (a.state is None || a.state->0.value
                    != ActivityStateValue::Stopped)
            },
    {
        if let Some(r) = &self.realm {
            if !str_equal(r.as_str(), a.realm.as_str()) {
                return false;
            }
        }
        if let Some(c) = &self.cutoff {
            if a.updated_at.is_before(c) {
                return false;
            }
        }
        if !self.include_stopped {
            if let Some(s) = &a.state {
                if s.value == ActivityStateValue::Stopped {
                    return false;
                }
            }
        }
        true
    }

    /// The assignments of `s` that the query lists, in order.
    pub open spec fn admitted(self, s: Seq<Assignment>) -> Seq<Assignment>
        decreases s.len(),
    {
        if s.len() == 0 {
            s
        } else {
            let p = self.admitted(s.drop_last());
            if self.admits(s.last()) {
                p.push(s.last())
            } else {
                p
            }
        }
    }

    /// What discovery answers for the assignments found in the registry: those
    /// that the query lists, most recently updated first (ties in the order
    /// found), at most `limit` of them unless `limit` is zero.
    pub open spec fn answer(self, found: Seq<Assignment>, limit: nat) -> Seq<Assignment> {
        limited(newest_first(self.admitted(found)), limit)
    }

    /// What discovery answers for the assignments found in the registry.
    pub fn select(&self, found: Vec<Assignment>, limit: usize) -> (r: Vec<Assignment>)
        ensures
            r@ == self.answer(found@, limit as nat),
    {
        let ghost all = found@;
        let mut rest = found;
        let mut sorted: Vec<Assignment> = Vec::new();
        let ghost taken: nat = 0;
        while rest.len() > 0
            invariant
                taken + rest@.len() == all.len(),
                rest@ == all.skip(taken as int),
                sorted@ == newest_first(self.admitted(all.take(taken as int))),
            decreases rest.len(),
        {
            let a = rest.remove(0);
            proof {
                assert(all.take(taken as int + 1).drop_last() =~= all.take(taken as int));
                assert(all.take(taken as int + 1).last() == a);
                taken = taken + 1;
                assert(rest@ =~= all.skip(taken as int));
            }
            let ghost prev = self.admitted(all.take(taken - 1));
            assert(self.admitted(all.take(taken as int)) == (if self.admits(a) {
                prev.push(a)
            } else {
                prev
            }));
            if self.lists(&a) {
                let p = newer_count(&sorted, &a.updated_at);
                assert(prev.push(a).drop_last() =~= prev);
                sorted.insert(p, a);
            }
        }
        assert(all.take(taken as int) =~= all);
        if limit > 0 {
            sorted.truncate(limit);
        }
        sorted
    }
}

/// The number of leading items of a newest-first sequence that are not older
/// than `t`: where an item updated at `t` is inserted.
pub open spec fn newer_prefix(s: Seq<Assignment>, t: Timestamp) -> nat
    decreases s.len(),
{
    if s.len() == 0 {
        0
    } else if s[0].updated_at.precedes(t) {
        0
    } else {
        1 + newer_prefix(s.drop_first(), t)
    }
}

/// `s`, most recently updated first, ties kept in their order in `s`.
pub open spec fn newest_first(s: Seq<Assignment>) -> Seq<Assignment>
    decreases s.len(),
{
    if s.len() == 0 {
        s
    } else {
        let p = newest_first(s.drop_last());
        p.insert(newer_prefix(p, s.last().updated_at) as int, s.last())
    }
}

/// The first `limit` items of `s`, or all of them when `limit` is zero.
pub open spec fn limited(s: Seq<Assignment>, limit: nat) -> Seq<Assignment> {
    if limit > 0 && limit < s.len() {
        s.take(limit as int)
    } else {
        s
    }
}

proof fn lemma_newer_prefix_bound(s: Seq<Assignment>, t: Timestamp)
    ensures
        newer_prefix(s, t) <= s.len(),
    decreases s.len(),
{
    if s.len() > 0 && !s[0].updated_at.precedes(t) {
        lemma_newer_prefix_bound(s.drop_first(), t);
    }
}

fn newer_count(s: &Vec<Assignment>, t: &Timestamp) -> (r: usize)
    ensures
        r as nat == newer_prefix(s@, *t),
        r <= s.len(),
{
    let mut j: usize = 0;
    proof {
        lemma_newer_prefix_bound(s@, *t);
        assert(s@.subrange(0, s.len() as int) =~= s@);
    }
    while j < s.len() && !s[j].updated_at.is_before(t)
        invariant
            j <= s.len(),
            newer_prefix(s@, *t) == j + newer_prefix(s@.subrange(j as int, s.len() as int), *t),
        decreases s.len() - j,
    {
        assert(s@.subrange(j as int, s.len() as int).drop_first() =~= s@.subrange(
            j + 1,
            s.len() as int,
        ));
        j += 1;
    }
    j
}

/// No item of `s` was updated later than an item before it.
pub open spec fn in_newest_first_order(s: Seq<Assignment>) -> bool {
    forall|i: int, j: int|
        0 <= i < j < s.len() ==> !(#[trigger] s[i]).updated_at.precedes((#[trigger] s[j]).updated_at)
}

proof fn lemma_newer_prefix_split(s: Seq<Assignment>, t: Timestamp)
    requires
        in_newest_first_order(s),
    ensures
        newer_prefix(s, t) <= s.len(),
        forall|i: int| 0 <= i < newer_prefix(s, t) ==> !(#[trigger] s[i]).updated_at.precedes(t),
        forall|i: int| newer_prefix(s, t) <= i < s.len() ==> (#[trigger] s[i]).updated_at.precedes(t),
    decreases s.len(),
{
    if s.len() > 0 && !s[0].updated_at.precedes(t) {
        let rest = s.drop_first();
        assert(in_newest_first_order(rest)) by {
            assert forall|i: int, j: int| 0 <= i < j < rest.len() implies !(
            #[trigger] rest[i]).updated_at.precedes((#[trigger] rest[j]).updated_at) by {
                assert(rest[i] == s[i + 1] && rest[j] == s[j + 1]);
            }
        }
        lemma_newer_prefix_split(rest, t);
        assert forall|i: int| 0 <= i < newer_prefix(s, t) implies !(
        #[trigger] s[i]).updated_at.precedes(t) by {
            if i > 0 {
                assert(s[i] == rest[i - 1]);
            }
        }
        assert forall|i: int| newer_prefix(s, t) <= i < s.len() implies (
        #[trigger] s[i]).updated_at.precedes(t) by {
            assert(s[i] == rest[i - 1]);
        }
    } else if s.len() > 0 {
        assert forall|i: int| 0 <= i < s.len() implies (#[trigger] s[i]).updated_at.precedes(t) by {
            if i > 0 {
                assert(!s[0].updated_at.precedes(s[i].updated_at));
            }
        }
    }
}

/// Sorting puts the most recently updated first and keeps every item.
pub proof fn lemma_newest_first(s: Seq<Assignment>)
    ensures
        in_newest_first_order(newest_first(s)),
        newest_first(s).to_multiset() == s.to_multiset(),
    decreases s.len(),
{
    broadcast use vstd::seq_lib::to_multiset_insert, vstd::seq_lib::to_multiset_build;

    if s.len() > 0 {
        let p = newest_first(s.drop_last());
        lemma_newest_first(s.drop_last());
        let x = s.last();
        let k = newer_prefix(p, x.updated_at) as int;
        lemma_newer_prefix_split(p, x.updated_at);
        let r = p.insert(k, x);
        assert(r == newest_first(s));
        assert forall|i: int, j: int| 0 <= i < j < r.len() implies !(
        #[trigger] r[i]).updated_at.precedes((#[trigger] r[j]).updated_at) by {
            if i < k && j < k {
                assert(r[i] == p[i] && r[j] == p[j]);
            } else if i < k && j == k {
                assert(r[i] == p[i] && r[j] == x);
            } else if i < k {
                assert(r[i] == p[i] && r[j] == p[j - 1]);
            } else if i == k {
                assert(r[i] == x && r[j] == p[j - 1]);
            } else {
                assert(r[i] == p[i - 1] && r[j] == p[j - 1]);
            }
        }
        assert(s =~= s.drop_last().push(x));
        assert(s.to_multiset() == s.drop_last().to_multiset().insert(x));
    }
}

proof fn lemma_admitted(q: DiscoverQuery, s: Seq<Assignment>)
    ensures
        forall|i: int| 0 <= i < q.admitted(s).len() ==> q.admits(#[trigger] q.admitted(s)[i]),
        forall|a: Assignment| q.admitted(s).to_multiset().count(a) <= s.to_multiset().count(a),
        forall|a: Assignment| q.admits(a) ==> q.admitted(s).to_multiset().count(a) == s.to_multiset().count(a),
        forall|a: Assignment| !q.admits(a) ==> q.admitted(s).to_multiset().count(a) == 0,
    decreases s.len(),
{
    broadcast use vstd::seq_lib::to_multiset_build, vstd::seq_lib::to_multiset_contains;

    if s.len() > 0 {
        lemma_admitted(q, s.drop_last());
        assert(s =~= s.drop_last().push(s.last()));
        let p = q.admitted(s.drop_last());
        if q.admits(s.last()) {
            assert forall|i: int| 0 <= i < q.admitted(s).len() implies q.admits(
                #[trigger] q.admitted(s)[i],
            ) by {
                if i < p.len() {
                    assert(q.admitted(s)[i] == p[i]);
                }
            }
        }
    }
}

/// Discovery answers only assignments that it found and that the query
/// lists, each as often as it was found at most, most recently updated
/// first, and never more than the limit; with no limit it answers every
/// listed assignment that it found.
pub proof fn lemma_discovery_answer(q: DiscoverQuery, found: Seq<Assignment>, limit: nat)
    ensures
        in_newest_first_order(q.answer(found, limit)),
        forall|i: int| 0 <= i < q.answer(found, limit).len() ==> q.admits(
            #[trigger] q.answer(found, limit)[i],
        ),
        forall|a: Assignment| q.answer(found, limit).to_multiset().count(a) <= found.to_multiset().count(a),
        limit > 0 ==> q.answer(found, limit).len() <= limit,
        limit == 0 ==> forall|a: Assignment| q.admits(a) ==> q.answer(found, limit).to_multiset().count(a)
            == found.to_multiset().count(a),
{
    let adm = q.admitted(found);
    lemma_admitted(q, found);
    lemma_newest_first(adm);
    let sorted = newest_first(adm);
    let ans = q.answer(found, limit);
    assert forall|i: int| 0 <= i < sorted.len() implies q.admits(#[trigger] sorted[i]) by {
        assert(sorted.to_multiset().count(sorted[i]) > 0) by {
            broadcast use vstd::seq_lib::to_multiset_contains;
            assert(sorted.contains(sorted[i]));
        }
        assert(adm.to_multiset().count(sorted[i]) > 0);
        broadcast use vstd::seq_lib::to_multiset_contains;
        assert(adm.contains(sorted[i]));
        let k = choose|k: int| 0 <= k < adm.len() && adm[k] == sorted[i];
        assert(q.admits(adm[k]));
    }
    if limit > 0 && limit < sorted.len() {
        let t = sorted.take(limit as int);
        assert(ans == t);
        assert forall|a: Assignment| t.to_multiset().count(a) <= sorted.to_multiset().count(a) by {
            lemma_take_count(sorted, limit as int, a);
        }
        assert forall|i: int| 0 <= i < ans.len() implies q.admits(#[trigger] ans[i]) by {
            assert(ans[i] == sorted[i]);
        }
    }
}

/// Discovery filters by realm, recency and stopped state: every assignment it
/// answers is in the query's realm, not older than its cutoff, and, unless
/// stopped ones are included, not stopped; and with no limit it answers
/// every found assignment that meets these conditions, as often as it was
/// found, whatever other state it reports.
pub proof fn lemma_discovery_filters(q: DiscoverQuery, found: Seq<Assignment>, limit: nat)
    ensures
        forall|i: int|
            0 <= i < q.answer(found, limit).len() ==> {
                &&& q.realm matches Some(r) ==> (#[trigger] q.answer(found, limit)[i]).realm@ == r@
                &&& q.cutoff matches Some(c) ==> !q.answer(found, limit)[i].updated_at.precedes(c)
                &&& !q.include_stopped ==> !(q.answer(found, limit)[i].state matches Some(s)
                    && s.value == ActivityStateValue::Stopped)
            },
        forall|a: Assignment|
            {
                &&& q.realm matches Some(r) ==> a.realm@ == r@
                &&& q.cutoff matches Some(c) ==> !a.updated_at.precedes(c)
                &&& q.include_stopped || a.state is None || a.state->0.value
                    != ActivityStateValue::Stopped
            } ==> #[trigger] q.answer(found, 0).to_multiset().count(a) == found.to_multiset().count(
                a,
            ),
        forall|a: Assignment|
            !{
                &&& q.realm matches Some(r) ==> a.realm@ == r@
                &&& q.cutoff matches Some(c) ==> !a.updated_at.precedes(c)
                &&& q.include_stopped || a.state is None || a.state->0.value
                    != ActivityStateValue::Stopped
            } ==> #[trigger] q.answer(found, limit).to_multiset().count(a) == 0,
{
    lemma_discovery_answer(q, found, limit);
    lemma_discovery_answer(q, found, 0);
    lemma_admitted(q, found);
    lemma_newest_first(q.admitted(found));
    assert forall|a: Assignment|
        {
            &&& q.realm matches Some(r) ==> a.realm@ == r@
            &&& q.cutoff matches Some(c) ==> !a.updated_at.precedes(c)
            &&& q.include_stopped || a.state is None || a.state->0.value
                != ActivityStateValue::Stopped
        } implies #[trigger] q.answer(found, 0).to_multiset().count(a) == found.to_multiset().count(
            a,
        ) by {
        assert(q.admits(a));
    }
    assert forall|a: Assignment| !q.admits(a) implies #[trigger] q.answer(found, limit).to_multiset().count(a) == 0 by {
        broadcast use vstd::seq_lib::to_multiset_contains;
        if q.answer(found, limit).to_multiset().count(a) > 0 {
            assert(q.answer(found, limit).contains(a));
            let k = choose|k: int| 0 <= k < q.answer(found, limit).len() && q.answer(found, limit)[k] == a;
            assert(q.admits(q.answer(found, limit)[k]));
        }
    }
}

/// With a limit, discovery answers exactly the first `min(limit, n)` entries
/// of its answer without one, `n` being that answer's length: the most
/// recently updated ones, since none left out was updated later than any
/// one kept.
pub proof fn lemma_discovery_limit(q: DiscoverQuery, found: Seq<Assignment>, limit: nat)
    requires
        limit > 0,
    ensures
        q.answer(found, limit).len() == (if limit < q.answer(found, 0).len() {
            limit
        } else {
            q.answer(found, 0).len()
        }),
        q.answer(found, limit) == q.answer(found, 0).take(q.answer(found, limit).len() as int),
        forall|i: int, j: int|
            0 <= i < q.answer(found, limit).len() <= j < q.answer(found, 0).len() ==> !(
            #[trigger] q.answer(found, limit)[i]).updated_at.precedes(
                (#[trigger] q.answer(found, 0)[j]).updated_at,
            ),
{
    let full = q.answer(found, 0);
    let part = q.answer(found, limit);
    lemma_newest_first(q.admitted(found));
    assert(full == newest_first(q.admitted(found)));
    if limit < full.len() {
        assert(part == full.take(limit as int));
    } else {
        assert(part == full);
        assert(full.take(full.len() as int) =~= full);
    }
    assert forall|i: int, j: int|
        0 <= i < part.len() <= j < full.len() implies !(#[trigger] part[i]).updated_at.precedes(
        (#[trigger] full[j]).updated_at,
    ) by {
        assert(part[i] == full[i]);
    }
}

proof fn lemma_take_count(s: Seq<Assignment>, n: int, a: Assignment)
    requires
        0 <= n <= s.len(),
    ensures
        s.take(n).to_multiset().count(a) <= s.to_multiset().count(a),
    decreases s.len() - n,
{
    broadcast use vstd::seq_lib::to_multiset_build;

    if n < s.len() {
        lemma_take_count(s, n + 1, a);
        assert(s.take(n + 1) =~= s.take(n).push(s[n]));
    } else {
        assert(s.take(n) =~= s);
    }
}

// ---------------------------------------------------------------------
// Listing
// ---------------------------------------------------------------------

/// The text of a listing line: name, session ID and update time, then the
/// state, working directory and summary that are present, separated by tabs.
pub open spec fn listing_text(a: Assignment, updated: Seq<char>) -> Seq<char> {
    let base = a.name@ + "\t"@ + a.session_id@ + "\tupdated:"@ + updated;
    let with_state = match a.state {
        Some(s) => base + "\tstate:"@ + s.value.name_text(),
        None => base,
    };
    let with_cwd = match a.cwd {
        Some(c) => with_state + "\tcwd:"@ + c@,
        None => with_state,
    };
    match a.summary {
        Some(m) => with_cwd + "\tsummary:"@ + m.text@,
        None => with_cwd,
    }
}

/// The line that lists `a` in human-readable discovery output; `updated` is
/// its update time as RFC 3339 text.
pub fn listing_line(a: &Assignment, updated: &str) -> (r: String)
    ensures
        r@ == listing_text(*a, updated@),
{
    let mut r = owned(a.name.as_str());
    push_str(&mut r, "\t");
    push_str(&mut r, a.session_id.as_str());
    push_str(&mut r, "\tupdated:");
    push_str(&mut r, updated);
    if let Some(s) = &a.state {
        push_str(&mut r, "\tstate:");
        push_str(&mut r, s.value.as_str());
    }
    if let Some(c) = &a.cwd {
        push_str(&mut r, "\tcwd:");
        push_str(&mut r, c.as_str());
    }
    if let Some(m) = &a.summary {
        push_str(&mut r, "\tsummary:");
        push_str(&mut r, m.text.as_str());
    }
    r
}

// ---------------------------------------------------------------------
// Pruning
// ---------------------------------------------------------------------

/// The instant that an RFC 3339 text names, as whole seconds since the epoch
/// and nanoseconds, when `chrono` accepts it.
pub uninterp spec fn rfc3339_instant(text: Seq<char>) -> Option<(i64, u32)>;

/// `chrono::DateTime::parse_from_rfc3339`, taken as an instant. The contract
/// claims only that the outcome is the one named `rfc3339_instant`.
#[verifier::external_body]
fn parse_rfc3339(text: &str) -> (r: Option<Timestamp>)
    ensures
        r matches Some(t) ==> rfc3339_instant(text@) == Some((t.secs, t.nanos)),
        r is None ==> rfc3339_instant(text@) is None,
{
    match chrono::DateTime::parse_from_rfc3339(text) {
        Ok(d) => Some(Timestamp { secs: d.timestamp(), nanos: d.timestamp_subsec_nanos() }),
        Err(_) => None,
    }
}

/// The cutoff of a prune, read from its `--before` argument.
pub fn prune_cutoff(before: &str) -> (r: Result<Timestamp, RegistryError>)
    ensures
        r is Ok <==> rfc3339_instant(before@) is Some,
        r matches Ok(t) ==> rfc3339_instant(before@) == Some((t.secs, t.nanos)),
        r matches Err(e) ==> (e matches RegistryError::InvalidTimestamp { text: x } && x@ == before@),
{
    match parse_rfc3339(before) {
        Some(t) => Ok(t),
        None => Err(RegistryError::InvalidTimestamp { text: owned(before) }),
    }
}

/// The assignments of `s` last updated before `cutoff`, in order.
pub open spec fn prunable(s: Seq<Assignment>, cutoff: Timestamp) -> Seq<Assignment>
    decreases s.len(),
{
    if s.len() == 0 {
        s
    } else {
        let p = prunable(s.drop_last(), cutoff);
        if s.last().updated_at.precedes(cutoff) {
            p.push(s.last())
        } else {
            p
        }
    }
}

/// The assignments found that a prune with this cutoff removes.
pub fn select_prunable(found: Vec<Assignment>, cutoff: Timestamp) -> (r: Vec<Assignment>)
    ensures
        r@ == prunable(found@, cutoff),
{
    let ghost all = found@;
    let mut rest = found;
    let mut kept: Vec<Assignment> = Vec::new();
    let ghost taken: int = 0;
    while rest.len() > 0
        invariant
            0 <= taken <= all.len(),
            taken + rest@.len() == all.len(),
            rest@ == all.skip(taken),
            kept@ == prunable(all.take(taken), cutoff),
        decreases rest.len(),
    {
        let a = rest.remove(0);
        proof {
            assert(all.take(taken + 1).drop_last() =~= all.take(taken));
            assert(all.take(taken + 1).last() == a);
            taken = taken + 1;
            assert(rest@ =~= all.skip(taken));
        }
        if a.updated_at.is_before(&cutoff) {
            kept.push(a);
        }
    }
    assert(all.take(taken) =~= all);
    kept
}

/// A prune removes every assignment last updated before its cutoff, as
/// often as it was found, and nothing else.
pub proof fn lemma_prunable(s: Seq<Assignment>, cutoff: Timestamp)
    ensures
        forall|i: int| 0 <= i < prunable(s, cutoff).len() ==> (#[trigger] prunable(s, cutoff)[i]).updated_at.precedes(cutoff),
        forall|a: Assignment| a.updated_at.precedes(cutoff) ==> prunable(s, cutoff).to_multiset().count(a) == s.to_multiset().count(a),
        forall|a: Assignment| !a.updated_at.precedes(cutoff) ==> prunable(s, cutoff).to_multiset().count(a) == 0,
    decreases s.len(),
{
    broadcast use vstd::seq_lib::to_multiset_build;

    if s.len() > 0 {
        lemma_prunable(s.drop_last(), cutoff);
        assert(s =~= s.drop_last().push(s.last()));
        let p = prunable(s.drop_last(), cutoff);
        if s.last().updated_at.precedes(cutoff) {
            assert forall|i: int| 0 <= i < prunable(s, cutoff).len() implies (#[trigger] prunable(
                s,
                cutoff,
            )[i]).updated_at.precedes(cutoff) by {
                if i < p.len() {
                    assert(prunable(s, cutoff)[i] == p[i]);
                }
            }
        }
    } else {
        s.to_multiset_ensures();
    }
}

} // verus!
