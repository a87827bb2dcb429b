//! The table of running relay instances, keyed by configuration and
//! shared by reference count.
use vstd::prelude::*;
use crate::key::{ConfigKey, KeyModel};

verus! {

/// The model of one running instance: how many starts share it, where it
/// listens, and the handle of its execution context.
pub struct Instance<T> {
    pub count: nat,
    pub addr: Seq<char>,
    pub ctx: T,
}

struct Record<T> {
    key: ConfigKey,
    count: usize,
    addr: String,
    ctx: T,
}

/// The model of the whole table: each recorded key and its instance.
pub type Table<T> = Map<KeyModel, Instance<T>>;

/// Why a start could not be recorded.
#[derive(PartialEq, Eq, Structural, Clone, Copy, Debug)]
pub enum StartError {
    /// The instance's reference count is at its largest value.
    ReferenceLimit,
    /// An instance for this key is already recorded.
    KeyTaken,
    /// Another instance already listens on this address.
    AddressTaken,
}

/// A refused registration: the reason, and the context handed back so the
/// caller can shut it down.
pub struct Rejected<T> {
    pub reason: StartError,
    pub ctx: T,
}

/// What releasing one reference did.
pub enum Release<T> {
    /// No instance is recorded for the key; nothing changed.
    Missing,
    /// The instance keeps running with this many references.
    Remaining(usize),
    /// The last reference went: the record is gone and its context is
    /// handed back to be shut down.
    Stopped(T),
}

/// The table of running instances. Each configuration key has at most one
/// instance, no two instances share a listen address, and every recorded
/// instance has at least one reference.
pub struct Registry<T> {
    records: Vec<Record<T>>,
    model: Ghost<Map<KeyModel, Instance<T>>>,
}

spec fn instance_of<T>(r: Record<T>) -> Instance<T> {
    Instance { count: r.count as nat, addr: r.addr@, ctx: r.ctx }
}

/// `m` after one more start of the recorded key `k`.
pub open spec fn acquired<T>(m: Map<KeyModel, Instance<T>>, k: KeyModel) -> Map<KeyModel, Instance<T>> {
    m.insert(k, Instance { count: m[k].count + 1, addr: m[k].addr, ctx: m[k].ctx })
}

/// `m` after the first start of `k`, which listens on `addr`.
pub open spec fn registered<T>(
    m: Map<KeyModel, Instance<T>>,
    k: KeyModel,
    addr: Seq<char>,
    ctx: T,
) -> Map<KeyModel, Instance<T>> {
    m.insert(k, Instance { count: 1, addr, ctx })
}

/// `m` after one stop of `k`: nothing when `k` is not recorded, the record
/// gone when this was its last reference, else one reference fewer.
pub open spec fn released<T>(m: Map<KeyModel, Instance<T>>, k: KeyModel) -> Map<KeyModel, Instance<T>> {
    if !m.contains_key(k) {
        m
    } else if m[k].count <= 1 {
        m.remove(k)
    } else {
        m.insert(k, Instance { count: (m[k].count - 1) as nat, addr: m[k].addr, ctx: m[k].ctx })
    }
}

/// No two recorded instances listen on the same address.
pub open spec fn distinct_addresses<T>(m: Map<KeyModel, Instance<T>>) -> bool {
    forall|a: KeyModel, b: KeyModel|
        #![trigger m[a], m[b]]
        m.contains_key(a) && m.contains_key(b) && a != b ==> m[a].addr != m[b].addr
}

/// Some recorded instance listens on `addr`.
pub open spec fn address_in_use<T>(m: Map<KeyModel, Instance<T>>, addr: Seq<char>) -> bool {
    exists|k: KeyModel| #[trigger] m.contains_key(k) && m[k].addr == addr
}

spec fn table_ok<T>(recs: Seq<Record<T>>, m: Map<KeyModel, Instance<T>>) -> bool {
    &&& forall|i: int|
        #![trigger recs[i]]
        0 <= i < recs.len() ==> m.contains_key(recs[i].key@) && m[recs[i].key@] == instance_of(recs[i])
            && recs[i].count >= 1
    &&& forall|k: KeyModel|
        #![trigger m.contains_key(k)]
        m.contains_key(k) ==> exists|i: int| 0 <= i < recs.len() && #[trigger] recs[i].key@ == k
    &&& forall|i: int, j: int|
        #![trigger recs[i], recs[j]]
        0 <= i < j < recs.len() ==> recs[i].key@ != recs[j].key@ && recs[i].addr@ != recs[j].addr@
}

proof fn lemma_update<T>(recs: Seq<Record<T>>, m: Map<KeyModel, Instance<T>>, i: int, rec: Record<T>)
    requires
        table_ok(recs, m),
        0 <= i < recs.len(),
        rec.key@ == recs[i].key@,
        rec.addr@ == recs[i].addr@,
        rec.count >= 1,
    ensures
        table_ok(recs.update(i, rec), m.insert(rec.key@, instance_of(rec))),
{
    let r2 = recs.update(i, rec);
    let m2 = m.insert(rec.key@, instance_of(rec));
    assert forall|j: int| 0 <= j < r2.len() implies r2[j].key@ == recs[j].key@ && r2[j].addr@ == recs[j].addr@ by {}
    assert forall|j: int| #![trigger r2[j]] 0 <= j < r2.len() implies m2.contains_key(r2[j].key@) && m2[r2[j].key@]
        == instance_of(r2[j]) && r2[j].count >= 1 by {
        if j != i {
            if j < i {
                assert(recs[j].key@ != recs[i].key@);
            } else {
                assert(recs[i].key@ != recs[j].key@);
            }
        }
    }
    assert forall|k: KeyModel| #![trigger m2.contains_key(k)] m2.contains_key(k) implies exists|w: int|
        0 <= w < r2.len() && #[trigger] r2[w].key@ == k by {
        assert(m.contains_key(k));
        let w = choose|w: int| 0 <= w < recs.len() && #[trigger] recs[w].key@ == k;
        assert(r2[w].key@ == k);
    }
    assert forall|a: int, b: int| #![trigger r2[a], r2[b]] 0 <= a < b < r2.len() implies r2[a].key@ != r2[b].key@
        && r2[a].addr@ != r2[b].addr@ by {
        assert(recs[a].key@ != recs[b].key@ && recs[a].addr@ != recs[b].addr@);
    }
}

proof fn lemma_remove<T>(recs: Seq<Record<T>>, m: Map<KeyModel, Instance<T>>, i: int)
    requires
        table_ok(recs, m),
        0 <= i < recs.len(),
    ensures
        table_ok(recs.remove(i), m.remove(recs[i].key@)),
{
    let k0 = recs[i].key@;
    let r2 = recs.remove(i);
    let m2 = m.remove(k0);
    assert forall|j: int| #![trigger r2[j]] 0 <= j < r2.len() implies m2.contains_key(r2[j].key@) && m2[r2[j].key@]
        == instance_of(r2[j]) && r2[j].count >= 1 by {
        if j < i {
            assert(r2[j] == recs[j]);
            assert(recs[j].key@ != recs[i].key@);
        } else {
            assert(r2[j] == recs[j + 1]);
            assert(recs[i].key@ != recs[j + 1].key@);
        }
    }
    assert forall|k: KeyModel| #![trigger m2.contains_key(k)] m2.contains_key(k) implies exists|w: int|
        0 <= w < r2.len() && #[trigger] r2[w].key@ == k by {
        assert(m.contains_key(k));
        let w = choose|w: int| 0 <= w < recs.len() && #[trigger] recs[w].key@ == k;
        assert(w != i);
        if w < i {
            assert(r2[w] == recs[w]);
        } else {
            assert(r2[w - 1] == recs[w]);
        }
    }
    assert forall|a: int, b: int| #![trigger r2[a], r2[b]] 0 <= a < b < r2.len() implies r2[a].key@ != r2[b].key@
        && r2[a].addr@ != r2[b].addr@ by {
        let a0 = if a < i { a } else { a + 1 };
        let b0 = if b < i { b } else { b + 1 };
        assert(r2[a] == recs[a0]);
        assert(r2[b] == recs[b0]);
        assert(recs[a0].key@ != recs[b0].key@ && recs[a0].addr@ != recs[b0].addr@);
    }
}

proof fn lemma_push<T>(recs: Seq<Record<T>>, m: Map<KeyModel, Instance<T>>, rec: Record<T>)
    requires
        table_ok(recs, m),
        !m.contains_key(rec.key@),
        !address_in_use(m, rec.addr@),
        rec.count >= 1,
    ensures
        table_ok(recs.push(rec), m.insert(rec.key@, instance_of(rec))),
{
    let r2 = recs.push(rec);
    let m2 = m.insert(rec.key@, instance_of(rec));
    let n = recs.len() as int;
    assert forall|j: int| #![trigger r2[j]] 0 <= j < r2.len() implies m2.contains_key(r2[j].key@) && m2[r2[j].key@]
        == instance_of(r2[j]) && r2[j].count >= 1 by {
        if j < n {
            assert(r2[j] == recs[j]);
            assert(m.contains_key(recs[j].key@));
        }
    }
    assert forall|k: KeyModel| #![trigger m2.contains_key(k)] m2.contains_key(k) implies exists|w: int|
        0 <= w < r2.len() && #[trigger] r2[w].key@ == k by {
        if k == rec.key@ {
            assert(r2[n].key@ == k);
        } else {
            let w = choose|w: int| 0 <= w < recs.len() && #[trigger] recs[w].key@ == k;
            assert(r2[w] == recs[w]);
        }
    }
    assert forall|a: int, b: int| #![trigger r2[a], r2[b]] 0 <= a < b < r2.len() implies r2[a].key@ != r2[b].key@
        && r2[a].addr@ != r2[b].addr@ by {
        assert(r2[a] == recs[a]);
        if b < n {
            assert(r2[b] == recs[b]);
        } else {
            let ka = recs[a].key@;
            assert(m.contains_key(ka) && m[ka] == instance_of(recs[a]));
        }
    }
}

impl<T> View for Registry<T> {
    type V = Map<KeyModel, Instance<T>>;

    closed spec fn view(&self) -> Map<KeyModel, Instance<T>> {
        self.model@
    }
}

impl<T> Registry<T> {
    /// The table's invariant.
    pub closed spec fn wf(&self) -> bool {
        table_ok(self.records@, self.model@)
    }

    pub fn new() -> (r: Registry<T>)
        ensures
            r.wf(),
            r@ == Map::<KeyModel, Instance<T>>::empty(),
    {
        Registry { records: Vec::new(), model: Ghost(Map::empty()) }
    }

    fn find(&self, key: &ConfigKey) -> (r: Option<usize>)
        requires
            self.wf(),
        ensures
            r.is_none() ==> !self@.contains_key(key@),
            r.is_some() ==> r.unwrap() < self.records@.len() && self.records@[r.unwrap() as int].key@ == key@,
    {
        let mut i: usize = 0;
        while i < self.records.len()
            invariant
                self.wf(),
                i <= self.records@.len(),
                forall|j: int| 0 <= j < i ==> #[trigger] self.records@[j].key@ != key@,
            decreases self.records@.len() - i,
        {
            if self.records[i].key.same_as(key) {
                return Some(i);
            }
            i = i + 1;
        }
        proof {
            if self@.contains_key(key@) {
                let w = choose|w: int| 0 <= w < self.records@.len() && #[trigger] self.records@[w].key@ == key@;
                assert(self.records@[w].key@ != key@);
            }
        }
        None
    }

    /// Whether some recorded instance listens on `addr`.
    pub fn address_taken(&self, addr: &String) -> (r: bool)
        requires
            self.wf(),
        ensures
            r == address_in_use(self@, addr@),
    {
        let mut i: usize = 0;
        while i < self.records.len()
            invariant
                self.wf(),
                i <= self.records@.len(),
                forall|j: int| 0 <= j < i ==> #[trigger] self.records@[j].addr@ != addr@,
            decreases self.records@.len() - i,
        {
            if self.records[i].addr == *addr {
                let ghost k = self.records@[i as int].key@;
                assert(self.model@[k] == instance_of(self.records@[i as int]));
                assert(self@.contains_key(k) && self@[k].addr == addr@);
                return true;
            }
            i = i + 1;
        }
        assert forall|k: KeyModel| #[trigger] self@.contains_key(k) implies self@[k].addr != addr@ by {
            let w = choose|w: int| 0 <= w < self.records@.len() && #[trigger] self.records@[w].key@ == k;
            assert(self.records@[w].addr@ != addr@);
        }
        false
    }

    /// The number of references to the instance of `key`; 0 when none is
    /// recorded.
    pub fn count(&self, key: &ConfigKey) -> (r: usize)
        requires
            self.wf(),
        ensures
            self@.contains_key(key@) ==> r == self@[key@].count,
            !self@.contains_key(key@) ==> r == 0,
    {
        match self.find(key) {
            Some(i) => self.records[i].count,
            None => 0,
        }
    }

    /// The listen address of the instance of `key`, if one is recorded.
    pub fn address(&self, key: &ConfigKey) -> (r: Option<String>)
        requires
            self.wf(),
        ensures
            r.is_some() == self@.contains_key(key@),
            r.is_some() ==> r.unwrap()@ == self@[key@].addr,
    {
        match self.find(key) {
            Some(i) => Some(self.records[i].addr.clone()),
            None => None,
        }
    }

    /// One more start of `key`. A recorded instance gains a reference and
    /// its address is returned; with none recorded, nothing changes and the
    /// caller has to provision one.
    pub fn acquire(&mut self, key: &ConfigKey) -> (r: Result<Option<String>, StartError>)
        requires
            old(self).wf(),
        ensures
            final(self).wf(),
            !old(self)@.contains_key(key@) ==> r == Ok::<Option<String>, StartError>(None) && final(self)@
                == old(self)@,
            old(self)@.contains_key(key@) && old(self)@[key@].count < usize::MAX ==> r.is_ok() && r.unwrap().is_some()
                && r.unwrap().unwrap()@ == old(self)@[key@].addr && final(self)@ == acquired(old(self)@, key@),
            old(self)@.contains_key(key@) && old(self)@[key@].count >= usize::MAX ==> r == Err::<
                Option<String>,
                StartError,
            >(StartError::ReferenceLimit) && final(self)@ == old(self)@,
    {
        match self.find(key) {
            None => Ok(None),
            Some(i) => {
                proof {
                    assert(self.model@[key@] == instance_of(self.records@[i as int]));
                }
                if self.records[i].count == usize::MAX {
                    return Err(StartError::ReferenceLimit);
                }
                let mut rec = self.records.remove(i);
                rec.count = rec.count + 1;
                let addr = rec.addr.clone();
                proof {
                    lemma_update(old(self).records@, old(self).model@, i as int, rec);
                    assert(instance_of(rec) == Instance {
                        count: old(self)@[key@].count + 1,
                        addr: old(self)@[key@].addr,
                        ctx: old(self)@[key@].ctx,
                    });
                }
                self.records.insert(i, rec);
                assert(self.records@ =~= old(self).records@.update(i as int, rec));
                self.model = Ghost(acquired(self.model@, key@));
                Ok(Some(addr))
            }
        }
    }

    /// Records the first start of `key`: an instance listening on `addr`
    /// whose execution context is `ctx`, with one reference. Refused, with
    /// `ctx` handed back, when `key` is already recorded or another instance
    /// listens on `addr`.
    pub fn register(&mut self, key: ConfigKey, addr: String, ctx: T) -> (r: Result<(), Rejected<T>>)
        requires
            old(self).wf(),
        ensures
            final(self).wf(),
            r.is_ok() == (!old(self)@.contains_key(key@) && !address_in_use(old(self)@, addr@)),
            r.is_ok() ==> final(self)@ == registered(old(self)@, key@, addr@, ctx),
            r.is_err() ==> final(self)@ == old(self)@ && r->Err_0.ctx == ctx,
            old(self)@.contains_key(key@) ==> r.is_err() && r->Err_0.reason == StartError::KeyTaken,
            !old(self)@.contains_key(key@) && address_in_use(old(self)@, addr@) ==> r.is_err()
                && r->Err_0.reason == StartError::AddressTaken,
    {
        if self.find(&key).is_some() {
            return Err(Rejected { reason: StartError::KeyTaken, ctx });
        }
        if self.address_taken(&addr) {
            return Err(Rejected { reason: StartError::AddressTaken, ctx });
        }
        let rec = Record { key, count: 1, addr, ctx };
        proof {
            lemma_push(self.records@, self.model@, rec);
        }
        self.records.push(rec);
        self.model = Ghost(registered(self.model@, rec.key@, rec.addr@, rec.ctx));
        assert(instance_of(rec) == Instance { count: 1, addr: rec.addr@, ctx: rec.ctx });
        Ok(())
    }

    /// One stop of `key`. With no instance recorded nothing changes; else
    /// the instance loses a reference, and when that was its last one the
    /// record goes and its context is handed back for shutdown.
    pub fn release(&mut self, key: &ConfigKey) -> (r: Release<T>)
        requires
            old(self).wf(),
        ensures
            final(self).wf(),
            final(self)@ == released(old(self)@, key@),
            !old(self)@.contains_key(key@) ==> r is Missing,
            old(self)@.contains_key(key@) && old(self)@[key@].count > 1 ==> r is Remaining && r->Remaining_0
                == old(self)@[key@].count - 1,
            old(self)@.contains_key(key@) && old(self)@[key@].count <= 1 ==> r is Stopped && r->Stopped_0
                == old(self)@[key@].ctx,
    {
        match self.find(key) {
            None => Release::Missing,
            Some(i) => {
                proof {
                    assert(self.model@[key@] == instance_of(self.records@[i as int]));
                }
                if self.records[i].count > 1 {
                    let mut rec = self.records.remove(i);
                    rec.count = rec.count - 1;
                    let left = rec.count;
                    proof {
                        lemma_update(old(self).records@, old(self).model@, i as int, rec);
                    }
                    self.records.insert(i, rec);
                    assert(self.records@ =~= old(self).records@.update(i as int, rec));
                    self.model = Ghost(released(self.model@, key@));
                    assert(self.model@ =~= old(self).model@.insert(rec.key@, instance_of(rec)));
                    Release::Remaining(left)
                } else {
                    proof {
                        lemma_remove(self.records@, self.model@, i as int);
                    }
                    let rec = self.records.remove(i);
                    self.model = Ghost(released(self.model@, key@));
                    Release::Stopped(rec.ctx)
                }
            }
        }
    }
}

/// `m` after `n` more starts of the recorded key `k`.
pub open spec fn acquired_times<T>(m: Map<KeyModel, Instance<T>>, k: KeyModel, n: nat) -> Table<T>
    decreases n,
{
    if n == 0 {
        m
    } else {
        acquired(acquired_times(m, k, (n - 1) as nat), k)
    }
}

/// `m` after `n` stops of `k`.
pub open spec fn released_times<T>(m: Map<KeyModel, Instance<T>>, k: KeyModel, n: nat) -> Table<T>
    decreases n,
{
    if n == 0 {
        m
    } else {
        released(released_times(m, k, (n - 1) as nat), k)
    }
}

proof fn lemma_acquired_times<T>(m: Map<KeyModel, Instance<T>>, k: KeyModel, addr: Seq<char>, ctx: T, c: nat, n: nat)
    ensures
        acquired_times(m.insert(k, (Instance { count: c, addr, ctx })), k, n) == m.insert(
            k,
            (Instance { count: c + n, addr, ctx }),
        ),
    decreases n,
{
    if n > 0 {
        lemma_acquired_times(m, k, addr, ctx, c, (n - 1) as nat);
        assert(acquired(m.insert(k, Instance { count: c + (n - 1) as nat, addr, ctx }), k) =~= m.insert(
            k,
            Instance { count: c + n, addr, ctx },
        ));
    }
}

proof fn lemma_released_times<T>(m: Map<KeyModel, Instance<T>>, k: KeyModel, addr: Seq<char>, ctx: T, c: nat, n: nat)
    requires
        n < c,
    ensures
        released_times(m.insert(k, (Instance { count: c, addr, ctx })), k, n) == m.insert(
            k,
            (Instance { count: (c - n) as nat, addr, ctx }),
        ),
    decreases n,
{
    if n > 0 {
        lemma_released_times(m, k, addr, ctx, c, (n - 1) as nat);
        assert(released(m.insert(k, Instance { count: (c - (n - 1)) as nat, addr, ctx }), k) =~= m.insert(
            k,
            Instance { count: (c - n) as nat, addr, ctx },
        ));
    }
}

/// Starting one configuration `n` times yields a single instance with `n`
/// references: the first start records it, every later one shares it, and
/// all of them see the address it was recorded with. No other key changes.
pub proof fn lemma_shared_start<T>(m: Map<KeyModel, Instance<T>>, k: KeyModel, addr: Seq<char>, ctx: T, n: nat)
    requires
        !m.contains_key(k),
        n >= 1,
    ensures
        acquired_times(registered(m, k, addr, ctx), k, (n - 1) as nat) == m.insert(
            k,
            (Instance { count: n, addr, ctx }),
        ),
        forall|j: nat|
            j < n ==> (#[trigger] acquired_times(registered(m, k, addr, ctx), k, j))[k].addr == addr,
{
    lemma_acquired_times(m, k, addr, ctx, 1, (n - 1) as nat);
    assert forall|j: nat| j < n implies (#[trigger] acquired_times(registered(m, k, addr, ctx), k, j))[k].addr
        == addr by {
        lemma_acquired_times(m, k, addr, ctx, 1, j);
    }
}

/// `n` starts of a configuration followed by `n` stops leave the table as
/// it was before the first start; the last stop is the one that finds a
/// single reference left, so it is the one that shuts the context down.
pub proof fn lemma_balanced_lifecycle<T>(m: Map<KeyModel, Instance<T>>, k: KeyModel, addr: Seq<char>, ctx: T, n: nat)
    requires
        !m.contains_key(k),
        n >= 1,
    ensures
        released_times(acquired_times(registered(m, k, addr, ctx), k, (n - 1) as nat), k, (n - 1) as nat)[k]
            == (Instance { count: 1, addr, ctx }),
        released_times(acquired_times(registered(m, k, addr, ctx), k, (n - 1) as nat), k, n) == m,
{
    lemma_acquired_times(m, k, addr, ctx, 1, (n - 1) as nat);
    lemma_released_times(m, k, addr, ctx, n, (n - 1) as nat);
    assert(m.insert(k, Instance { count: 1, addr, ctx }).remove(k) =~= m);
}

/// A stop never touches another configuration's instance, and a stop of a
/// configuration with no instance changes nothing at all.
pub proof fn lemma_stop_isolated<T>(m: Map<KeyModel, Instance<T>>, k: KeyModel, other: KeyModel)
    requires
        other != k,
    ensures
        !m.contains_key(k) ==> released(m, k) == m,
        released(m, k).contains_key(other) == m.contains_key(other),
        m.contains_key(other) ==> released(m, k)[other] == m[other],
{
}

impl<T> Registry<T> {
    /// No two instances in a well-formed table listen on the same address.
    pub proof fn lemma_distinct_addresses(&self)
        requires
            self.wf(),
        ensures
            distinct_addresses(self@),
    {
        let recs = self.records@;
        let m = self.model@;
        assert forall|a: KeyModel, b: KeyModel|
            #![trigger m[a], m[b]]
            m.contains_key(a) && m.contains_key(b) && a != b implies m[a].addr != m[b].addr by {
            let i = choose|i: int| 0 <= i < recs.len() && #[trigger] recs[i].key@ == a;
            let j = choose|j: int| 0 <= j < recs.len() && #[trigger] recs[j].key@ == b;
            assert(m[a] == instance_of(recs[i]));
            assert(m[b] == instance_of(recs[j]));
            if i < j {
                assert(recs[i].addr@ != recs[j].addr@);
            } else {
                assert(recs[j].addr@ != recs[i].addr@);
            }
        }
    }

    /// Two configurations that differ only in the insecure switch are two
    /// instances, each with its own listen address.
    pub proof fn lemma_isolation(&self, a: KeyModel, b: KeyModel)
        requires
            self.wf(),
            self@.contains_key(a),
            self@.contains_key(b),
            a.0 == b.0 && a.1 == b.1 && a.2 == b.2 && a.3 == b.3,
            a.4 != b.4,
        ensures
            a != b,
            self@[a].addr != self@[b].addr,
    {
        self.lemma_distinct_addresses();
        assert(self@[a] == self.model@[a] && self@[b] == self.model@[b]);
    }
}

} // verus!
