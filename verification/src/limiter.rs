use vstd::prelude::*;

use crate::urls::{host_of, request_host};

verus! {

/// The host to which requests are never limited: the public OSRM router.
pub const UNLIMITED_HOST: &'static str = "router.project-osrm.org";

/// How many requests any other host gets.
pub const QUERY_LIMIT: u32 = 3;

/// The view of `UNLIMITED_HOST`.
pub open spec fn unlimited_host() -> Seq<char> {
    "router.project-osrm.org"@
}

/// How many requests have been let through to `host` according to `counts`.
pub open spec fn count_of(counts: Map<Seq<char>, nat>, host: Seq<char>) -> nat {
    if counts.contains_key(host) {
        counts[host]
    } else {
        0
    }
}

/// Whether a request to `host` is let through when `counts` were let through before.
pub open spec fn allows(counts: Map<Seq<char>, nat>, host: Seq<char>) -> bool {
    count_of(counts, host) < QUERY_LIMIT || host == unlimited_host()
}

/// The counts after one request to `host`: a request that is let through counts,
/// a refused one changes nothing.
pub open spec fn after_request(counts: Map<Seq<char>, nat>, host: Seq<char>) -> Map<Seq<char>, nat> {
    if allows(counts, host) {
        counts.insert(host, count_of(counts, host) + 1)
    } else {
        counts
    }
}

/// The counts after the requests to `hosts`, in order, starting from no requests.
pub open spec fn replay(hosts: Seq<Seq<char>>) -> Map<Seq<char>, nat>
    decreases hosts.len(),
{
    if hosts.len() == 0 {
        Map::empty()
    } else {
        after_request(replay(hosts.drop_last()), hosts.last())
    }
}

/// How often `host` occurs in `hosts`.
pub open spec fn occurrences(hosts: Seq<Seq<char>>, host: Seq<char>) -> nat
    decreases hosts.len(),
{
    if hosts.len() == 0 {
        0
    } else {
        occurrences(hosts.drop_last(), host) + if hosts.last() == host {
            1nat
        } else {
            0nat
        }
    }
}

/// After any run of requests, the unlimited host has had every request let through, and
/// every other host as many as it asked for, but at most `QUERY_LIMIT`.
pub proof fn lemma_replay_counts(hosts: Seq<Seq<char>>, host: Seq<char>)
    ensures
        host == unlimited_host() ==> count_of(replay(hosts), host) == occurrences(hosts, host),
        host != unlimited_host() ==> count_of(replay(hosts), host) == if occurrences(hosts, host)
            < QUERY_LIMIT {
            occurrences(hosts, host)
        } else {
            QUERY_LIMIT as nat
        },
    decreases hosts.len(),
{
    if hosts.len() > 0 {
        lemma_replay_counts(hosts.drop_last(), host);
    }
}

/// A request is let through exactly when its host is the unlimited one or has been asked
/// fewer than `QUERY_LIMIT` times before: the fourth and later requests to any other host
/// are refused.
pub proof fn lemma_request_allowed_iff(hosts: Seq<Seq<char>>, host: Seq<char>)
    ensures
        allows(replay(hosts), host) <==> (host == unlimited_host() || occurrences(hosts, host)
            < QUERY_LIMIT),
{
    lemma_replay_counts(hosts, host);
}

/// A refused request changes no count, and a request to one host changes no count of another.
pub proof fn lemma_request_touches_only_its_host(
    counts: Map<Seq<char>, nat>,
    host: Seq<char>,
    other: Seq<char>,
)
    ensures
        !allows(counts, host) ==> after_request(counts, host) == counts,
        other != host ==> count_of(after_request(counts, host), other) == count_of(counts, other),
        count_of(after_request(counts, host), host) == if allows(counts, host) {
            count_of(counts, host) + 1
        } else {
            count_of(counts, host)
        },
{
}

/// The map from host to count that a list of entries holds.
pub open spec fn entries_map(entries: Seq<(String, u32)>) -> Map<Seq<char>, nat> {
    Map::new(
        |k: Seq<char>| exists|i: int| 0 <= i < entries.len() && #[trigger] entries[i].0@ == k,
        |k: Seq<char>| entries[choose|i: int| 0 <= i < entries.len() && #[trigger] entries[i].0@ == k].1 as nat,
    )
}

/// No host occurs twice among the entries.
pub open spec fn keys_distinct(entries: Seq<(String, u32)>) -> bool {
    forall|i: int, j: int|
        0 <= i < entries.len() && 0 <= j < entries.len() && i != j ==> #[trigger] entries[i].0@
            != #[trigger] entries[j].0@
}

proof fn lemma_entries_map_at(entries: Seq<(String, u32)>, i: int)
    requires
        keys_distinct(entries),
        0 <= i < entries.len(),
    ensures
        entries_map(entries).contains_key(entries[i].0@),
        entries_map(entries)[entries[i].0@] == entries[i].1 as nat,
{
    let k = entries[i].0@;
    assert(exists|j: int| 0 <= j < entries.len() && #[trigger] entries[j].0@ == k);
    let j = choose|j: int| 0 <= j < entries.len() && #[trigger] entries[j].0@ == k;
    assert(j == i);
}

proof fn lemma_entries_map_update(entries: Seq<(String, u32)>, i: int, entry: (String, u32))
    requires
        keys_distinct(entries),
        0 <= i < entries.len(),
        entry.0@ == entries[i].0@,
    ensures
        keys_distinct(entries.update(i, entry)),
        entries_map(entries.update(i, entry)) == entries_map(entries).insert(
            entry.0@,
            entry.1 as nat,
        ),
{
    let s2 = entries.update(i, entry);
    let m1 = entries_map(entries);
    let m2 = entries_map(s2);
    assert(keys_distinct(s2)) by {
        assert forall|a: int, b: int|
            0 <= a < s2.len() && 0 <= b < s2.len() && a != b implies #[trigger] s2[a].0@
            != #[trigger] s2[b].0@ by {
            assert(entries[a].0@ != entries[b].0@);
        }
    }
    assert forall|k: Seq<char>| #[trigger] m2.contains_key(k) <==> m1.insert(entry.0@, entry.1 as nat).contains_key(k) by {
        if m2.contains_key(k) {
            let j = choose|j: int| 0 <= j < s2.len() && #[trigger] s2[j].0@ == k;
            assert(entries[j].0@ == k);
        }
        if m1.contains_key(k) {
            let j = choose|j: int| 0 <= j < entries.len() && #[trigger] entries[j].0@ == k;
            assert(s2[j].0@ == k);
        }
        if k == entry.0@ {
            assert(s2[i].0@ == k);
        }
    }
    assert forall|k: Seq<char>| #[trigger] m2.contains_key(k) implies m2[k] == m1.insert(entry.0@, entry.1 as nat)[k] by {
        let j = choose|j: int| 0 <= j < s2.len() && #[trigger] s2[j].0@ == k;
        lemma_entries_map_at(s2, j);
        if j != i {
            lemma_entries_map_at(entries, j);
        }
    }
    assert(m2 =~= m1.insert(entry.0@, entry.1 as nat));
}

proof fn lemma_entries_map_push(entries: Seq<(String, u32)>, entry: (String, u32))
    requires
        keys_distinct(entries),
        !entries_map(entries).contains_key(entry.0@),
    ensures
        keys_distinct(entries.push(entry)),
        entries_map(entries.push(entry)) == entries_map(entries).insert(entry.0@, entry.1 as nat),
{
    let s2 = entries.push(entry);
    let m1 = entries_map(entries);
    let m2 = entries_map(s2);
    let n = entries.len() as int;
    assert(keys_distinct(s2)) by {
        assert forall|a: int, b: int|
            0 <= a < s2.len() && 0 <= b < s2.len() && a != b implies #[trigger] s2[a].0@
            != #[trigger] s2[b].0@ by {
            if a < n && b < n {
                assert(entries[a].0@ != entries[b].0@);
            } else if a < n {
                assert(entries[a].0@ == s2[a].0@);
            } else {
                assert(entries[b].0@ == s2[b].0@);
            }
        }
    }
    assert forall|k: Seq<char>| #[trigger] m2.contains_key(k) <==> m1.insert(entry.0@, entry.1 as nat).contains_key(k) by {
        if m2.contains_key(k) {
            let j = choose|j: int| 0 <= j < s2.len() && #[trigger] s2[j].0@ == k;
            if j < n {
                assert(entries[j].0@ == k);
            }
        }
        if m1.contains_key(k) {
            let j = choose|j: int| 0 <= j < entries.len() && #[trigger] entries[j].0@ == k;
            assert(s2[j].0@ == k);
        }
        if k == entry.0@ {
            assert(s2[n].0@ == k);
        }
    }
    assert forall|k: Seq<char>| #[trigger] m2.contains_key(k) implies m2[k] == m1.insert(entry.0@, entry.1 as nat)[k] by {
        let j = choose|j: int| 0 <= j < s2.len() && #[trigger] s2[j].0@ == k;
        lemma_entries_map_at(s2, j);
        if j < n {
            lemma_entries_map_at(entries, j);
        }
    }
    assert(m2 =~= m1.insert(entry.0@, entry.1 as nat));
}

/// A request refused by the limit.
#[derive(Debug, PartialEq, Eq)]
pub enum QueryError {
    /// The host has had its `QUERY_LIMIT` requests; the error holds the count of every host,
    /// as it stood, one entry per host.
    TooManyQueries(Vec<(String, u32)>),
}

/// The entries hold exactly the counts `counts`, one entry per host.
pub open spec fn holds_counts(entries: Seq<(String, u32)>, counts: Map<Seq<char>, nat>) -> bool {
    keys_distinct(entries) && entries_map(entries) == counts
}

/// Counts the requests let through to each host and refuses those over the limit.
pub struct QueryCounter {
    entries: Vec<(String, u32)>,
}

impl View for QueryCounter {
    type V = Map<Seq<char>, nat>;

    closed spec fn view(&self) -> Map<Seq<char>, nat> {
        entries_map(self.entries@)
    }
}

impl QueryCounter {
    /// The counter is well formed: no host has two entries.
    pub closed spec fn wf(&self) -> bool {
        keys_distinct(self.entries@)
    }

    /// A copy of the entries.
    fn entries_copy(&self) -> (r: Vec<(String, u32)>)
        ensures
            r@ == self.entries@,
    {
        let mut r: Vec<(String, u32)> = Vec::new();
        let n = self.entries.len();
        let mut i: usize = 0;
        while i < n
            invariant
                n == self.entries@.len(),
                i <= n,
                r@ == self.entries@.take(i as int),
            decreases n - i,
        {
            let entry = (self.entries[i].0.clone(), self.entries[i].1);
            r.push(entry);
            assert(r@ =~= self.entries@.take(i + 1));
            i = i + 1;
        }
        assert(self.entries@.take(n as int) =~= self.entries@);
        r
    }

    /// A counter with no request counted.
    pub fn new() -> (r: QueryCounter)
        ensures
            r.wf(),
            r@ == Map::<Seq<char>, nat>::empty(),
    {
        let r = QueryCounter { entries: Vec::new() };
        assert(r@ =~= Map::<Seq<char>, nat>::empty());
        r
    }

    /// How many requests to `host` were let through.
    pub fn count(&self, host: &str) -> (r: u32)
        requires
            self.wf(),
        ensures
            r == count_of(self@, host@),
    {
        let key = String::from_str(host);
        let n = self.entries.len();
        let mut i: usize = 0;
        while i < n
            invariant
                n == self.entries@.len(),
                keys_distinct(self.entries@),
                key@ == host@,
                i <= n,
                forall|j: int| 0 <= j < i ==> #[trigger] self.entries@[j].0@ != host@,
            decreases n - i,
        {
            if self.entries[i].0 == key {
                proof {
                    lemma_entries_map_at(self.entries@, i as int);
                }
                return self.entries[i].1;
            }
            i = i + 1;
        }
        0
    }

    /// Counts a request to `host`, or refuses it: a host other than `UNLIMITED_HOST` gets
    /// `QUERY_LIMIT` requests.
    pub fn register_host(&mut self, host: &str) -> (r: Result<(), QueryError>)
        requires
            old(self).wf(),
            host@ == unlimited_host() ==> count_of(old(self)@, host@) < u32::MAX,
        ensures
            final(self).wf(),
            final(self)@ == after_request(old(self)@, host@),
            r is Ok <==> allows(old(self)@, host@),
            r matches Err(QueryError::TooManyQueries(counts)) ==> holds_counts(counts@, old(self)@),
    {
        let key = String::from_str(host);
        let unlimited = String::from_str(UNLIMITED_HOST);
        let n = self.entries.len();
        let mut i: usize = 0;
        while i < n
            invariant
                n == self.entries@.len(),
                self.entries@ == old(self).entries@,
                keys_distinct(self.entries@),
                host@ == unlimited_host() ==> count_of(old(self)@, host@) < u32::MAX,
                key@ == host@,
                unlimited@ == unlimited_host(),
                i <= n,
                forall|j: int| 0 <= j < i ==> #[trigger] self.entries@[j].0@ != host@,
            decreases n - i,
        {
            if self.entries[i].0 == key {
                proof {
                    lemma_entries_map_at(self.entries@, i as int);
                }
                let c = self.entries[i].1;
                if c < QUERY_LIMIT || key == unlimited {
                    proof {
                        lemma_entries_map_update(self.entries@, i as int, (key, (c + 1) as u32));
                    }
                    self.entries.set(i, (key, c + 1));
                    return Ok(());
                } else {
                    return Err(QueryError::TooManyQueries(self.entries_copy()));
                }
            }
            i = i + 1;
        }
        proof {
            if self@.contains_key(host@) {
                let j = choose|j: int| 0 <= j < self.entries@.len() && #[trigger] self.entries@[j].0@ == host@;
                assert(self.entries@[j].0@ != host@);
            }
            lemma_entries_map_push(self.entries@, (key, 1u32));
        }
        self.entries.push((key, 1));
        Ok(())
    }

    /// Counts a request to `url` under its host (the empty string where it has none), or
    /// refuses it.
    pub fn register(&mut self, url: &str) -> (r: Result<(), QueryError>)
        requires
            old(self).wf(),
            request_host(url@) == unlimited_host() ==> count_of(old(self)@, request_host(url@))
                < u32::MAX,
        ensures
            final(self).wf(),
            final(self)@ == after_request(old(self)@, request_host(url@)),
            r is Ok <==> allows(old(self)@, request_host(url@)),
            r matches Err(QueryError::TooManyQueries(counts)) ==> holds_counts(counts@, old(self)@),
    {
        let host = host_of(url);
        self.register_host(host.as_str())
    }

    /// As `register`, but hands back `None`, and counts nothing, where the count of the
    /// unlimited host would no longer fit in a `u32`.
    pub fn try_register(&mut self, url: &str) -> (r: Option<Result<(), QueryError>>)
        requires
            old(self).wf(),
        ensures
            final(self).wf(),
            r is None <==> (request_host(url@) == unlimited_host() && count_of(
                old(self)@,
                request_host(url@),
            ) == u32::MAX),
            r is None ==> final(self)@ == old(self)@,
            r matches Some(res) ==> {
                &&& final(self)@ == after_request(old(self)@, request_host(url@))
                &&& res is Ok <==> allows(old(self)@, request_host(url@))
                &&& res matches Err(QueryError::TooManyQueries(counts)) ==> holds_counts(
                    counts@,
                    old(self)@,
                )
            },
    {
        let host = host_of(url);
        let unlimited = String::from_str(UNLIMITED_HOST);
        if host == unlimited && self.count(host.as_str()) == u32::MAX {
            None
        } else {
            Some(self.register(url))
        }
    }
}

} // verus!
