//! The tiered cache: an ordered list of providers read in turn, with promotion
//! of a hit to the other providers and self-healing of undecodable entries.
//!
//! The providers' I/O is done by the caller. The cache decides: which provider
//! to read next, what a read means, which providers a hit is promoted to, and
//! which providers a new entry is written to. `scan` states the whole lookup
//! over a model in which each provider holds, for the key at hand, an optional
//! payload.

use vstd::prelude::*;
use crate::compression::{compress, decompress, opt_bytes, zstd_compressed, zstd_decoded};
use crate::config::{CacheConfig, WrapperConfig};
use crate::provider::{CacheProvider, FileCacheProvider, Policy, RedisProvider};

verus! {

/// A configured provider.
#[derive(Debug)]
pub enum Provider {
    Filesystem(FileCacheProvider),
    Redis(RedisProvider),
}

impl CacheProvider for Provider {
    open spec fn policy(&self) -> Policy {
        match self {
            Provider::Filesystem(p) => p.policy(),
            Provider::Redis(p) => p.policy(),
        }
    }

    fn get_id(&self) -> (r: usize) {
        match self {
            Provider::Filesystem(p) => p.get_id(),
            Provider::Redis(p) => p.get_id(),
        }
    }

    fn update(&self) -> (r: bool) {
        match self {
            Provider::Filesystem(p) => p.update(),
            Provider::Redis(p) => p.update(),
        }
    }

    fn test_if_update_is_required(&self) -> (r: bool) {
        match self {
            Provider::Filesystem(p) => p.test_if_update_is_required(),
            Provider::Redis(p) => p.test_if_update_is_required(),
        }
    }
}

/// Provider `p`, at position `i`, is the one that configuration entry `cfg` describes:
/// same kind, location, expiry and flags, the global integrity and debug flags, id `i`.
pub open spec fn configured(p: Provider, cfg: CacheConfig, i: int, integrity: bool, debug: bool) -> bool {
    match (p, cfg) {
        (Provider::Filesystem(f), CacheConfig::Filesystem(c)) => f.id == i && f.path == c.path
            && f.update == c.update_on_hit && f.test_if_update_is_required == c.test_if_update_is_required
            && f.panic_on_cache_content_mismatch == integrity && f.debug == debug,
        (Provider::Redis(r), CacheConfig::Redis(c)) => r.id == i && r.url == c.url && r.expire == c.expire
            && r.update == c.update_on_hit && r.test_if_update_is_required == c.test_if_update_is_required
            && r.panic_on_cache_content_mismatch == integrity,
        _ => false,
    }
}

/// An ordered list of providers; each one's id is its position.
#[derive(Debug)]
pub struct Cache {
    pub providers: Vec<Provider>,
    pub debug: bool,
}

/// What each provider holds for one (category, key).
pub type Stores = Seq<Option<Seq<u8>>>;

/// Whether provider `i` takes part in a lookup pinned to `pin`.
pub open spec fn candidate(pin: Option<usize>, i: int) -> bool {
    pin is None || pin == Some(i as usize)
}

/// The first candidate provider at or after `from`.
pub open spec fn next_candidate(n: int, pin: Option<usize>, from: int) -> Option<int>
    decreases n - from,
{
    if from >= n {
        None
    } else if candidate(pin, from) {
        Some(from)
    } else {
        next_candidate(n, pin, from + 1)
    }
}

/// Whether a hit at `hit` is written to provider `j`, which holds `held`.
pub open spec fn must_promote(pols: Seq<Policy>, j: int, hit: int, faulty: bool, held: Option<Seq<u8>>) -> bool {
    j != hit && pols[j].update && (!pols[j].test_if_update_is_required || held is None || faulty)
}

/// The stores after promoting `c`, found at `hit`.
pub open spec fn promoted(pols: Seq<Policy>, stores: Stores, hit: int, c: Seq<u8>, faulty: bool) -> Stores {
    Seq::new(stores.len(), |j: int| if must_promote(pols, j, hit, faulty, stores[j]) { Some(c) } else { stores[j] })
}

/// A lookup from provider `from` on: the first candidate that holds a
/// decodable payload is the hit and is promoted; an undecodable payload is
/// deleted and forces promotion over whatever later providers hold.
/// Result: the payload and the hit provider, and what the providers hold after.
pub open spec fn scan(pols: Seq<Policy>, pin: Option<usize>, stores: Stores, from: int, faulty: bool)
    -> (Option<(Seq<u8>, int)>, Stores)
    decreases pols.len() - from,
{
    if from < 0 || from >= pols.len() || from >= stores.len() {
        (None, stores)
    } else if !candidate(pin, from) {
        scan(pols, pin, stores, from + 1, faulty)
    } else {
        match stores[from] {
            None => scan(pols, pin, stores, from + 1, faulty),
            Some(c) => match zstd_decoded(c) {
                Some(p) => (Some((p, from)), promoted(pols, stores, from, c, faulty)),
                None => scan(pols, pin, stores.update(from, None), from + 1, true),
            },
        }
    }
}

/// A tiered `get` of one entry.
pub open spec fn tiered_get(pols: Seq<Policy>, pin: Option<usize>, stores: Stores) -> (Option<(Seq<u8>, int)>, Stores) {
    scan(pols, pin, stores, 0, false)
}

/// The stores after a tiered `set` that wrote `c`.
pub open spec fn after_set(pols: Seq<Policy>, stores: Stores, c: Seq<u8>) -> Stores {
    Seq::new(stores.len(), |j: int| if j < pols.len() && pols[j].update { Some(c) } else { stores[j] })
}

/// Where a lookup stands: the pin, the next provider to consider, and whether
/// an undecodable entry was found so far.
#[derive(Debug)]
pub struct Lookup {
    pub pin: Option<usize>,
    pub next: usize,
    pub faulty: bool,
}

/// What a read from a provider means.
#[derive(Debug)]
pub enum ReadVerdict {
    /// The provider holds no entry (or could not be read).
    Absent,
    /// The entry does not decode: delete it from that provider and go on.
    Corrupt,
    /// The decoded payload.
    Hit(Vec<u8>),
}

/// A provider that a hit is promoted to; with `check`, only where it does not
/// hold the entry already.
#[derive(Debug)]
pub struct Promotion {
    pub provider: usize,
    pub check: bool,
}

impl Promotion {
    /// Whether the hit is written to this provider, given whether the provider
    /// already holds the entry (only asked where `check` is set).
    pub fn writes(&self, has_entry: bool) -> (r: bool)
        ensures
            r == (!self.check || !has_entry),
    {
        !self.check || !has_entry
    }
}

impl Cache {
    pub open spec fn policies(&self) -> Seq<Policy> {
        self.providers@.map_values(|p: Provider| p.policy())
    }

    /// Each provider's id is its position.
    pub open spec fn wf(&self) -> bool {
        forall|i: int| 0 <= i < self.providers@.len() ==> #[trigger] self.policies()[i].id == i
    }

    /// The providers of a configuration, in order, with ids by position; `None`
    /// where none is configured.
    pub fn new(config: &WrapperConfig) -> (r: Option<Cache>)
        ensures
            config.cache@.len() == 0 <==> r is None,
            r matches Some(c) ==> c.wf() && c.providers@.len() == config.cache@.len() && c.debug == config.debug
                && forall|i: int| 0 <= i < c.providers@.len() ==> #[trigger] configured(c.providers@[i], config.cache@[i], i, config.panic_on_cache_content_mismatch, config.debug),
    {
        let mut providers: Vec<Provider> = Vec::new();
        let mut i: usize = 0;
        while i < config.cache.len()
            invariant
                i <= config.cache@.len(),
                providers@.len() == i,
                forall|k: int| 0 <= k < i ==> #[trigger] configured(providers@[k], config.cache@[k], k, config.panic_on_cache_content_mismatch, config.debug),
            decreases config.cache@.len() - i,
        {
            let p = match &config.cache[i] {
                CacheConfig::Filesystem(f) => Provider::Filesystem(FileCacheProvider::new(
                    i,
                    f.path.clone(),
                    f.update_on_hit,
                    config.panic_on_cache_content_mismatch,
                    f.test_if_update_is_required,
                    config.debug,
                )),
                CacheConfig::Redis(f) => Provider::Redis(RedisProvider::new(
                    i,
                    f.url.clone(),
                    f.update_on_hit,
                    config.panic_on_cache_content_mismatch,
                    f.expire,
                    f.test_if_update_is_required,
                )),
            };
            providers.push(p);
            i = i + 1;
        }
        if providers.len() == 0 {
            return None;
        }
        let c = Cache { providers, debug: config.debug };
        assert forall|k: int| 0 <= k < c.providers@.len() implies #[trigger] c.policies()[k].id == k by {
            assert(c.policies()[k] == c.providers@[k].policy());
            assert(configured(c.providers@[k], config.cache@[k], k, config.panic_on_cache_content_mismatch, config.debug));
        }
        Some(c)
    }

    /// A lookup that has read nothing yet.
    pub fn start_lookup(&self, pin: Option<usize>) -> (r: Lookup)
        ensures
            r.pin == pin,
            r.next == 0,
            !r.faulty,
    {
        Lookup { pin, next: 0, faulty: false }
    }

    /// The provider to read next, or `None` when the lookup has missed.
    pub fn next_source(&self, st: &Lookup) -> (r: Option<usize>)
        ensures
            match r {
                Some(i) => i < self.providers@.len()
                    && next_candidate(self.providers@.len() as int, st.pin, st.next as int) == Some(i as int),
                None => next_candidate(self.providers@.len() as int, st.pin, st.next as int) is None,
            },
    {
        if st.next >= self.providers.len() {
            return None;
        }
        let mut i = st.next;
        while i < self.providers.len()
            invariant
                st.next <= i <= self.providers@.len(),
                next_candidate(self.providers@.len() as int, st.pin, st.next as int)
                    == next_candidate(self.providers@.len() as int, st.pin, i as int),
            decreases self.providers@.len() - i,
        {
            let take = match st.pin {
                None => true,
                Some(p) => p == i,
            };
            if take {
                return Some(i);
            }
            i = i + 1;
        }
        None
    }

    /// Judges what provider `i` returned: a decodable payload is the hit; an
    /// undecodable one is corrupt (and marks the lookup); nothing is absent.
    /// The lookup then goes on after `i`.
    pub fn examine(&self, st: &mut Lookup, i: usize, data: Option<&Vec<u8>>) -> (r: ReadVerdict)
        requires
            i < usize::MAX,
        ensures
            final(st).pin == old(st).pin,
            final(st).next == i + 1,
            match data {
                None => r is Absent && final(st).faulty == old(st).faulty,
                Some(c) => match zstd_decoded(c@) {
                    Some(p) => (r matches ReadVerdict::Hit(v) && v@ == p) && final(st).faulty == old(st).faulty,
                    None => r is Corrupt && final(st).faulty,
                },
            },
    {
        st.next = i + 1;
        match data {
            None => ReadVerdict::Absent,
            Some(c) => match decompress(c) {
                Some(p) => ReadVerdict::Hit(p),
                None => {
                    st.faulty = true;
                    ReadVerdict::Corrupt
                },
            },
        }
    }

    /// The providers a hit at `hit` is promoted to, in order: every other
    /// provider that takes updates; `check` is set where the provider asks to
    /// be tested first and no corrupt entry was found before the hit.
    pub fn promotion_targets(&self, hit: usize, faulty: bool) -> (r: Vec<Promotion>)
        ensures
            promotions_view(r@) == promotion_list(self.policies(), hit as int, faulty, self.providers@.len() as int),
    {
        let mut out: Vec<Promotion> = Vec::new();
        let mut j: usize = 0;
        while j < self.providers.len()
            invariant
                j <= self.providers@.len(),
                promotions_view(out@) == promotion_list(self.policies(), hit as int, faulty, j as int),
            decreases self.providers@.len() - j,
        {
            let p = &self.providers[j];
            proof {
                assert(self.policies()[j as int] == p.policy());
            }
            let ghost before = out@;
            if j != hit && p.update() {
                out.push(Promotion { provider: j, check: p.test_if_update_is_required() && !faulty });
                proof {
                    assert(promotions_view(out@) =~= promotions_view(before).push((j as int, self.policies()[j as int].test_if_update_is_required && !faulty)));
                }
            }
            j = j + 1;
        }
        out
    }

    /// Compresses `data` once for a tiered `set`: the bytes to store and the
    /// providers to write them to (every one that takes updates, in order).
    pub fn set_entry(&self, data: &Vec<u8>) -> (r: (Vec<u8>, Vec<usize>))
        ensures
            r.0@ == zstd_compressed(data@),
            zstd_decoded(r.0@) == Some(data@),
            indices_view(r.1@) == update_list(self.policies(), self.providers@.len() as int),
    {
        let c = compress(data).unwrap();
        (c, self.update_targets())
    }

    fn update_targets(&self) -> (r: Vec<usize>)
        ensures
            indices_view(r@) == update_list(self.policies(), self.providers@.len() as int),
    {
        let mut out: Vec<usize> = Vec::new();
        let mut j: usize = 0;
        while j < self.providers.len()
            invariant
                j <= self.providers@.len(),
                indices_view(out@) == update_list(self.policies(), j as int),
            decreases self.providers@.len() - j,
        {
            proof {
                assert(self.policies()[j as int] == self.providers@[j as int].policy());
            }
            let ghost before = out@;
            if self.providers[j].update() {
                out.push(j);
                proof {
                    assert(indices_view(out@) =~= indices_view(before).push(j as int));
                }
            }
            j = j + 1;
        }
        out
    }
}

pub open spec fn indices_view(v: Seq<usize>) -> Seq<int> {
    v.map_values(|i: usize| i as int)
}

pub open spec fn promotions_view(v: Seq<Promotion>) -> Seq<(int, bool)> {
    v.map_values(|t: Promotion| (t.provider as int, t.check))
}

/// The providers among the first `n` that take updates, in order.
pub open spec fn update_list(pols: Seq<Policy>, n: int) -> Seq<int>
    decreases n,
{
    if n <= 0 {
        Seq::empty()
    } else if pols[n - 1].update {
        update_list(pols, n - 1).push(n - 1)
    } else {
        update_list(pols, n - 1)
    }
}

/// The promotions among the first `n` providers after a hit at `hit`: each
/// other provider that takes updates, with whether it is to be tested first.
pub open spec fn promotion_list(pols: Seq<Policy>, hit: int, faulty: bool, n: int) -> Seq<(int, bool)>
    decreases n,
{
    if n <= 0 {
        Seq::empty()
    } else if n - 1 != hit && pols[n - 1].update {
        promotion_list(pols, hit, faulty, n - 1).push((n - 1, pols[n - 1].test_if_update_is_required && !faulty))
    } else {
        promotion_list(pols, hit, faulty, n - 1)
    }
}

/// A lookup over two providers that both take updates, where only the first
/// holds the entry and it decodes: the first is the hit, and afterwards the
/// second holds the same compressed bytes.
pub proof fn lemma_hit_promotes(pols: Seq<Policy>, stores: Stores, c: Seq<u8>)
    requires
        pols.len() == 2,
        stores.len() == 2,
        pols[0].update,
        pols[1].update,
        stores[0] == Some(c),
        stores[1] is None,
        zstd_decoded(c) is Some,
    ensures
        tiered_get(pols, None, stores).0 == Some((zstd_decoded(c)->0, 0int)),
        tiered_get(pols, None, stores).1[1] == Some(c),
{
    assert(must_promote(pols, 1, 0, false, stores[1]));
}

/// A lookup over two providers where the first holds bytes that do not decode
/// and the second a valid entry: the second's payload is returned; the bad
/// entry is gone from the first, which then holds the valid bytes if it takes
/// updates and nothing otherwise.
pub proof fn lemma_corrupt_entry_heals(pols: Seq<Policy>, stores: Stores, bad: Seq<u8>, c: Seq<u8>, p: Seq<u8>)
    requires
        pols.len() == 2,
        stores.len() == 2,
        stores[0] == Some(bad),
        zstd_decoded(bad) is None,
        stores[1] == Some(c),
        zstd_decoded(c) == Some(p),
    ensures
        tiered_get(pols, None, stores).0 == Some((p, 1int)),
        pols[0].update ==> tiered_get(pols, None, stores).1[0] == Some(c),
        !pols[0].update ==> tiered_get(pols, None, stores).1[0] is None,
{
    let healed = stores.update(0, None);
    assert(scan(pols, None, stores, 0, false) == scan(pols, None, healed, 1, true));
    assert(healed[1] == Some(c));
    assert(scan(pols, None, healed, 1, true) == (Some((p, 1int)), promoted(pols, healed, 1, c, true)));
}

proof fn lemma_scan_reaches(pols: Seq<Policy>, stores: Stores, from: int, j0: int, c: Seq<u8>, v: Seq<u8>)
    requires
        0 <= from <= j0 < pols.len(),
        stores.len() == pols.len(),
        stores[j0] == Some(c),
        zstd_decoded(c) == Some(v),
        forall|i: int| from <= i < j0 ==> #[trigger] stores[i] is None,
    ensures
        scan(pols, None, stores, from, false).0 == Some((v, j0)),
    decreases j0 - from,
{
    if from < j0 {
        lemma_scan_reaches(pols, stores, from + 1, j0, c, v);
    }
}

/// A tiered `set` that wrote `c`, the compression of `v`, followed by a
/// lookup: where some provider takes updates and those that do not hold
/// nothing for the key, the lookup returns `v`.
pub proof fn lemma_set_then_get(pols: Seq<Policy>, stores: Stores, c: Seq<u8>, v: Seq<u8>, j: int)
    requires
        stores.len() == pols.len(),
        0 <= j < pols.len(),
        pols[j].update,
        forall|i: int| 0 <= i < pols.len() && !pols[i].update ==> #[trigger] stores[i] is None,
        zstd_decoded(c) == Some(v),
    ensures
        tiered_get(pols, None, after_set(pols, stores, c)).0 matches Some((p, _)) && p == v,
{
    let s2 = after_set(pols, stores, c);
    let j0 = choose|j0: int| 0 <= j0 < pols.len() && pols[j0].update
        && forall|i: int| 0 <= i < j0 ==> !#[trigger] pols[i].update;
    lemma_first_update(pols, j);
    assert forall|i: int| 0 <= i < j0 implies #[trigger] s2[i] is None by {
        assert(!pols[i].update);
    }
    lemma_scan_reaches(pols, s2, 0, j0, c, v);
}

proof fn lemma_first_update(pols: Seq<Policy>, j: int)
    requires
        0 <= j < pols.len(),
        pols[j].update,
    ensures
        exists|j0: int| 0 <= j0 < pols.len() && pols[j0].update
            && forall|i: int| 0 <= i < j0 ==> !#[trigger] pols[i].update,
    decreases j,
{
    if exists|i: int| 0 <= i < j && pols[i].update {
        let i = choose|i: int| 0 <= i < j && pols[i].update;
        lemma_first_update(pols, i);
    } else {
        assert(forall|i: int| 0 <= i < j ==> !#[trigger] pols[i].update);
    }
}

/// The stores after `n` tiered `set`s of the same compressed bytes.
pub open spec fn set_repeated(pols: Seq<Policy>, stores: Stores, c: Seq<u8>, n: nat) -> Stores
    decreases n,
{
    if n == 0 {
        stores
    } else {
        after_set(pols, set_repeated(pols, stores, c, (n - 1) as nat), c)
    }
}

/// Repeating a tiered `set` of `v` any number of times leaves the stores as
/// one `set` does, so a lookup then returns `v`.
pub proof fn lemma_set_repeated_then_get(pols: Seq<Policy>, stores: Stores, c: Seq<u8>, v: Seq<u8>, j: int, n: nat)
    requires
        n >= 1,
        stores.len() == pols.len(),
        0 <= j < pols.len(),
        pols[j].update,
        forall|i: int| 0 <= i < pols.len() && !pols[i].update ==> #[trigger] stores[i] is None,
        zstd_decoded(c) == Some(v),
    ensures
        set_repeated(pols, stores, c, n) == after_set(pols, stores, c),
        tiered_get(pols, None, set_repeated(pols, stores, c, n)).0 matches Some((p, _)) && p == v,
    decreases n,
{
    let once = after_set(pols, stores, c);
    if n > 1 {
        lemma_set_repeated_then_get(pols, stores, c, v, j, (n - 1) as nat);
        assert(set_repeated(pols, stores, c, n) == after_set(pols, set_repeated(pols, stores, c, (n - 1) as nat), c));
        assert(after_set(pols, once, c) =~= once);
    } else {
        assert(set_repeated(pols, stores, c, 0) == stores);
        assert(set_repeated(pols, stores, c, 1) == after_set(pols, set_repeated(pols, stores, c, 0), c));
    }
    lemma_set_then_get(pols, stores, c, v, j);
}

pub open spec fn held_view(v: Seq<Option<Vec<u8>>>) -> Stores {
    v.map_values(|o: Option<Vec<u8>>| opt_bytes(o))
}

proof fn lemma_promotion_list(pols: Seq<Policy>, hit: int, faulty: bool, n: int)
    requires
        0 <= n <= pols.len(),
    ensures
        forall|m: int| 0 <= m < promotion_list(pols, hit, faulty, n).len() ==> {
            let e = #[trigger] promotion_list(pols, hit, faulty, n)[m];
            &&& 0 <= e.0 < n
            &&& e.0 != hit
            &&& pols[e.0].update
            &&& e.1 == (pols[e.0].test_if_update_is_required && !faulty)
        },
        forall|m1: int, m2: int| 0 <= m1 < m2 < promotion_list(pols, hit, faulty, n).len()
            ==> (#[trigger] promotion_list(pols, hit, faulty, n)[m1]).0 < (#[trigger] promotion_list(pols, hit, faulty, n)[m2]).0,
        forall|j: int| 0 <= j < n && j != hit && #[trigger] pols[j].update ==> exists|m: int|
            0 <= m < promotion_list(pols, hit, faulty, n).len() && (#[trigger] promotion_list(pols, hit, faulty, n)[m]).0 == j,
    decreases n,
{
    if n > 0 {
        lemma_promotion_list(pols, hit, faulty, n - 1);
        let prev = promotion_list(pols, hit, faulty, n - 1);
        let cur = promotion_list(pols, hit, faulty, n);
        if n - 1 != hit && pols[n - 1].update {
            assert(cur == prev.push((n - 1, pols[n - 1].test_if_update_is_required && !faulty)));
            assert forall|j: int| 0 <= j < n && j != hit && #[trigger] pols[j].update implies exists|m: int|
                0 <= m < cur.len() && (#[trigger] cur[m]).0 == j by {
                if j == n - 1 {
                    assert(cur[cur.len() - 1].0 == j);
                } else {
                    let m = choose|m: int| 0 <= m < prev.len() && (#[trigger] prev[m]).0 == j;
                    assert(cur[m] == prev[m]);
                }
            }
        } else {
            assert(cur == prev);
        }
    }
}

proof fn lemma_scan_skip(pols: Seq<Policy>, pin: Option<usize>, stores: Stores, from: int, faulty: bool)
    requires
        0 <= from,
        stores.len() == pols.len(),
    ensures
        match next_candidate(pols.len() as int, pin, from) {
            Some(i) => from <= i < pols.len() && candidate(pin, i)
                && scan(pols, pin, stores, from, faulty) == scan(pols, pin, stores, i, faulty),
            None => scan(pols, pin, stores, from, faulty) == (None::<(Seq<u8>, int)>, stores),
        },
    decreases pols.len() - from,
{
    if from < pols.len() && !candidate(pin, from) {
        lemma_scan_skip(pols, pin, stores, from + 1, faulty);
    }
}

impl Cache {
    /// A whole lookup over providers whose contents for the entry are known
    /// (`held[i]` for provider `i`), driven by the same steps as a lookup over
    /// real stores: `held` is updated as the providers would be (corrupt entries
    /// deleted, the hit promoted) and the decoded payload with the hit's id is
    /// returned.
    pub fn get_entry(&self, held: &mut Vec<Option<Vec<u8>>>, pin: Option<usize>) -> (r: Option<(Vec<u8>, usize)>)
        requires
            old(held)@.len() == self.providers@.len(),
        ensures
            tiered_get(self.policies(), pin, held_view(old(held)@)) == (
                match r {
                    Some((p, i)) => Some((p@, i as int)),
                    None => None,
                },
                held_view(final(held)@),
            ),
    {
        let ghost pols = self.policies();
        let ghost n = self.providers@.len();
        let mut st = self.start_lookup(pin);
        loop
            invariant
                pols == self.policies(),
                n == self.providers@.len(),
                held@.len() == n,
                st.pin == pin,
                st.next <= n,
                tiered_get(pols, pin, held_view(old(held)@)) == scan(pols, pin, held_view(held@), st.next as int, st.faulty),
            decreases n - st.next,
        {
            proof {
                lemma_scan_skip(pols, pin, held_view(held@), st.next as int, st.faulty);
            }
            let i = match self.next_source(&st) {
                Some(i) => i,
                None => {
                    return None;
                },
            };
            let count = self.providers.len();
            assert(i < count);
            let data = match &held[i] {
                Some(d) => Some(d.clone()),
                None => None,
            };
            proof {
                if data is Some {
                    assert(data->0@ =~= held@[i as int]->0@);
                }
                assert(held_view(held@)[i as int] == opt_bytes(data));
            }
            let ghost before = held_view(held@);
            let ghost faulty = st.faulty;
            match self.examine(&mut st, i, data.as_ref()) {
                ReadVerdict::Absent => {},
                ReadVerdict::Corrupt => {
                    held.set(i, None);
                    proof {
                        assert(held_view(held@) =~= before.update(i as int, None));
                    }
                },
                ReadVerdict::Hit(plain) => {
                    let c = match data {
                        Some(d) => d,
                        None => {
                            return None;
                        },
                    };
                    let targets = self.promotion_targets(i, st.faulty);
                    let ghost list = promotion_list(pols, i as int, faulty, n as int);
                    proof {
                        lemma_promotion_list(pols, i as int, faulty, n as int);
                        assert(promotions_view(targets@) == list);
                    }
                    let mut k: usize = 0;
                    while k < targets.len()
                        invariant
                            pols == self.policies(),
                            n == self.providers@.len(),
                            held@.len() == n,
                            k <= targets@.len(),
                            promotions_view(targets@) == list,
                            list == promotion_list(pols, i as int, faulty, n as int),
                            forall|m: int| 0 <= m < list.len() ==> {
                                let e = #[trigger] list[m];
                                &&& 0 <= e.0 < n
                                &&& e.0 != i
                                &&& pols[e.0].update
                                &&& e.1 == (pols[e.0].test_if_update_is_required && !faulty)
                            },
                            forall|m1: int, m2: int| 0 <= m1 < m2 < list.len() ==> (#[trigger] list[m1]).0 < (#[trigger] list[m2]).0,
                            forall|j: int| 0 <= j < n ==> #[trigger] held_view(held@)[j] == (
                                if exists|m: int| 0 <= m < k && (#[trigger] list[m]).0 == j
                                    && (!list[m].1 || before[j] is None) { Some(c@) } else { before[j] }),
                        decreases targets@.len() - k,
                    {
                        let t = &targets[k];
                        proof {
                            assert(list[k as int] == (t.provider as int, t.check));
                        }
                        let skip = !t.writes(held[t.provider].is_some());
                        proof {
                            assert forall|m: int| 0 <= m < k implies (#[trigger] list[m]).0 != t.provider by {
                                assert(list[m].0 < list[k as int].0);
                            }
                            assert(held_view(held@)[t.provider as int] == before[t.provider as int]);
                        }
                        let ghost mid = held_view(held@);
                        if !skip {
                            let copy = c.clone();
                            proof {
                                assert(copy@ =~= c@);
                            }
                            held.set(t.provider, Some(copy));
                        }
                        proof {
                            assert forall|j: int| 0 <= j < n implies #[trigger] held_view(held@)[j] == (
                                if exists|m: int| 0 <= m < k + 1 && (#[trigger] list[m]).0 == j
                                    && (!list[m].1 || before[j] is None) { Some(c@) } else { before[j] }) by {
                                if j == t.provider as int {
                                    if !skip {
                                        assert(list[k as int].0 == j);
                                    } else {
                                        assert forall|m: int| 0 <= m < k + 1 && (#[trigger] list[m]).0 == j implies
                                            !(!list[m].1 || before[j] is None) by {
                                            if m < k {
                                                assert(list[m].0 < list[k as int].0);
                                            }
                                        }
                                    }
                                } else {
                                    assert(held_view(held@)[j] == mid[j]);
                                    if exists|m: int| 0 <= m < k + 1 && (#[trigger] list[m]).0 == j
                                        && (!list[m].1 || before[j] is None) {
                                        let m = choose|m: int| 0 <= m < k + 1 && (#[trigger] list[m]).0 == j
                                            && (!list[m].1 || before[j] is None);
                                        assert(m < k);
                                    }
                                }
                            }
                        }
                        k = k + 1;
                    }
                    proof {
                        assert(held_view(held@) =~= promoted(pols, before, i as int, c@, faulty)) by {
                            assert forall|j: int| 0 <= j < n implies #[trigger] held_view(held@)[j]
                                == promoted(pols, before, i as int, c@, faulty)[j] by {
                                if must_promote(pols, j, i as int, faulty, before[j]) {
                                    let m = choose|m: int| 0 <= m < list.len() && (#[trigger] list[m]).0 == j;
                                    assert(list[m].0 == j);
                                } else {
                                    if exists|m: int| 0 <= m < targets@.len() && (#[trigger] list[m]).0 == j
                                        && (!list[m].1 || before[j] is None) {
                                        let m = choose|m: int| 0 <= m < targets@.len() && (#[trigger] list[m]).0 == j
                                            && (!list[m].1 || before[j] is None);
                                        assert(list[m].0 == j);
                                    }
                                }
                            }
                        }
                    }
                    return Some((plain, i));
                },
            }
        }
    }
}

impl Cache {
    /// Writes compressed bytes to every provider that takes updates, over
    /// providers whose contents for the entry are known (`held[i]` for provider `i`).
    pub fn update_all_entry(&self, held: &mut Vec<Option<Vec<u8>>>, data: &Vec<u8>)
        requires
            old(held)@.len() == self.providers@.len(),
        ensures
            held_view(final(held)@) == after_set(self.policies(), held_view(old(held)@), data@),
    {
        let targets = self.update_targets();
        let ghost pols = self.policies();
        let ghost before = held_view(held@);
        let ghost n = self.providers@.len();
        proof {
            lemma_update_list(pols, n as int);
            let ul = update_list(pols, n as int);
            assert forall|m: int| 0 <= m < targets@.len() implies (#[trigger] targets@[m]) < n && pols[targets@[m] as int].update by {
                assert(indices_view(targets@)[m] == ul[m]);
            }
            assert forall|m1: int, m2: int| 0 <= m1 < m2 < targets@.len() implies (#[trigger] targets@[m1]) < (#[trigger] targets@[m2]) by {
                assert(indices_view(targets@)[m1] == ul[m1]);
                assert(indices_view(targets@)[m2] == ul[m2]);
            }
        }
        let mut k: usize = 0;
        while k < targets.len()
            invariant
                pols == self.policies(),
                n == self.providers@.len(),
                held@.len() == n,
                k <= targets@.len(),
                indices_view(targets@) == update_list(pols, n as int),
                forall|m: int| 0 <= m < targets@.len() ==> (#[trigger] targets@[m]) < n && pols[targets@[m] as int].update,
                forall|m1: int, m2: int| 0 <= m1 < m2 < targets@.len() ==> (#[trigger] targets@[m1]) < (#[trigger] targets@[m2]),
                forall|j: int| 0 <= j < n ==> #[trigger] held_view(held@)[j] == (
                    if exists|m: int| 0 <= m < k && (#[trigger] targets@[m]) as int == j { Some(data@) } else { before[j] }),
            decreases targets@.len() - k,
        {
            let t = targets[k];
            let copy = data.clone();
            proof {
                assert(copy@ =~= data@);
            }
            let ghost mid = held_view(held@);
            held.set(t, Some(copy));
            proof {
                assert forall|j: int| 0 <= j < n implies #[trigger] held_view(held@)[j] == (
                    if exists|m: int| 0 <= m < k + 1 && (#[trigger] targets@[m]) as int == j { Some(data@) } else { before[j] }) by {
                    if j == t as int {
                        assert(targets@[k as int] as int == j);
                    } else {
                        assert(held_view(held@)[j] == mid[j]);
                        if exists|m: int| 0 <= m < k + 1 && (#[trigger] targets@[m]) as int == j {
                            let m = choose|m: int| 0 <= m < k + 1 && (#[trigger] targets@[m]) as int == j;
                            assert(m < k);
                        }
                    }
                }
            }
            k = k + 1;
        }
        proof {
            assert(held_view(held@) =~= after_set(pols, before, data@)) by {
                assert forall|j: int| 0 <= j < n implies #[trigger] held_view(held@)[j] == after_set(pols, before, data@)[j] by {
                    if pols[j].update {
                        let m = choose|m: int| 0 <= m < update_list(pols, n as int).len() && update_list(pols, n as int)[m] == j;
                        assert(indices_view(targets@)[m] == targets@[m] as int);
                    } else {
                        if exists|m: int| 0 <= m < targets@.len() && (#[trigger] targets@[m]) as int == j {
                            let m = choose|m: int| 0 <= m < targets@.len() && (#[trigger] targets@[m]) as int == j;
                            assert(pols[targets@[m] as int].update);
                        }
                    }
                }
            }
        }
    }
}

proof fn lemma_update_list(pols: Seq<Policy>, n: int)
    requires
        0 <= n <= pols.len(),
    ensures
        forall|m: int| 0 <= m < update_list(pols, n).len() ==> {
            let e = #[trigger] update_list(pols, n)[m];
            0 <= e < n && pols[e].update
        },
        forall|m1: int, m2: int| 0 <= m1 < m2 < update_list(pols, n).len()
            ==> #[trigger] update_list(pols, n)[m1] < #[trigger] update_list(pols, n)[m2],
        forall|j: int| 0 <= j < n && #[trigger] pols[j].update ==> exists|m: int|
            0 <= m < update_list(pols, n).len() && update_list(pols, n)[m] == j,
    decreases n,
{
    if n > 0 {
        lemma_update_list(pols, n - 1);
        let prev = update_list(pols, n - 1);
        let cur = update_list(pols, n);
        if pols[n - 1].update {
            assert(cur == prev.push(n - 1));
            assert forall|j: int| 0 <= j < n && #[trigger] pols[j].update implies exists|m: int|
                0 <= m < cur.len() && cur[m] == j by {
                if j == n - 1 {
                    assert(cur[cur.len() - 1] == j);
                } else {
                    let m = choose|m: int| 0 <= m < prev.len() && prev[m] == j;
                    assert(cur[m] == prev[m]);
                }
            }
        } else {
            assert(cur == prev);
        }
    }
}

} // verus!
