use vstd::prelude::*;
use vstd::string::*;

use crate::models::{Item, ItemContent, ItemList, opt_view, item_username, doc_password};

verus! {

/// How long a vault snapshot stays usable, in seconds.
pub const CACHE_TTL_SECONDS: u64 = 300;

/// The snapshot of one vault's items, without secrets, and when it was taken.
pub struct CachedVault {
    pub vault_name: String,
    pub items: ItemList,
    pub timestamp: u64,
}

/// The whole cache document: one snapshot per vault.
pub struct Cache {
    pub vaults: Vec<CachedVault>,
}

/// Seconds since the Unix epoch by the system clock, or `None` when the
/// clock reads earlier than the epoch.
///
/// Relies on std's `SystemTime::elapsed`, taken from the epoch; nothing is
/// known of the value, which depends on the clock.
#[verifier::external_body]
fn clock_seconds() -> (r: Option<u64>) {
    std::time::UNIX_EPOCH.elapsed().ok().map(|d| d.as_secs())
}

/// The timestamp for a clock reading: the seconds since the epoch, or 0 for
/// a clock that reads earlier than the epoch.
pub fn timestamp_from(reading: Option<u64>) -> (r: u64)
    ensures
        r == match reading {
            Some(s) => s,
            None => 0,
        },
{
    match reading {
        Some(s) => s,
        None => 0,
    }
}

/// The current time in seconds since the Unix epoch; 0 when the clock reads
/// earlier than the epoch.
pub fn get_current_timestamp() -> u64 {
    timestamp_from(clock_seconds())
}

/// Whether entry `i` of `vs` belongs to the vault named `name`.
pub open spec fn named(vs: Seq<CachedVault>, i: int, name: Seq<char>) -> bool {
    0 <= i < vs.len() && vs[i].vault_name@ == name
}

/// A snapshot taken at `timestamp` is still usable at `now`.
pub open spec fn is_fresh(timestamp: u64, now: u64) -> bool {
    now - timestamp < CACHE_TTL_SECONDS
}

/// Whether entry `i` of `vs` is a usable snapshot of the vault `name` at `now`.
pub open spec fn hit(vs: Seq<CachedVault>, i: int, name: Seq<char>, now: u64) -> bool {
    named(vs, i, name) && is_fresh(vs[i].timestamp, now)
}

/// The first entry of the vault `name` (meaningful when there is one).
pub open spec fn first_named(vs: Seq<CachedVault>, name: Seq<char>) -> int {
    choose|i: int| named(vs, i, name) && forall|j: int| 0 <= j < i ==> !named(vs, j, name)
}

/// The first usable entry of the vault `name` at `now` (meaningful when there is one).
pub open spec fn first_hit(vs: Seq<CachedVault>, name: Seq<char>, now: u64) -> int {
    choose|i: int| hit(vs, i, name, now) && forall|j: int| 0 <= j < i ==> !hit(vs, j, name, now)
}

/// What a read of the cache gives for the vault `name` at `now`: the items of
/// its first usable snapshot, or nothing.
pub open spec fn lookup(c: Cache, name: Seq<char>, now: u64) -> Option<Seq<Item>> {
    if exists|i: int| hit(c.vaults@, i, name, now) {
        Some(c.vaults@[first_hit(c.vaults@, name, now)].items.items@)
    } else {
        None
    }
}

/// `b` is the form in which item `a` is kept in the cache: same title, no
/// secret payload, and the username that `a` shows.
pub open spec fn stripped(a: Item, b: Item) -> bool {
    &&& b.content.title@ == a.content.title@
    &&& b.content.content is None
    &&& opt_view(b.cached_username) == item_username(a)
}

/// Each of `bs` is the cached form of the item at the same place in `items`.
pub open spec fn stripped_all(items: Seq<Item>, bs: Seq<Item>) -> bool {
    bs.len() == items.len() && forall|k: int| 0 <= k < items.len() ==> stripped(#[trigger] items[k], bs[k])
}

/// `e` is the snapshot of `items` for the vault `name` taken at `now`.
pub open spec fn new_entry(e: CachedVault, name: Seq<char>, items: Seq<Item>, now: u64) -> bool {
    &&& e.vault_name@ == name
    &&& e.timestamp == now
    &&& stripped_all(items, e.items.items@)
}

/// `new` is `old` after the snapshot of `items` for the vault `name` was
/// written at `now`: the first entry of that vault is replaced, or, when
/// there is none, the snapshot is appended.
pub open spec fn upserted(old: Cache, new: Cache, name: Seq<char>, items: Seq<Item>, now: u64) -> bool {
    let ov = old.vaults@;
    let nv = new.vaults@;
    if exists|i: int| named(ov, i, name) {
        let i = first_named(ov, name);
        &&& nv.len() == ov.len()
        &&& new_entry(nv[i], name, items, now)
        &&& forall|j: int| 0 <= j < ov.len() && j != i ==> nv[j] == ov[j]
    } else {
        &&& nv.len() == ov.len() + 1
        &&& new_entry(nv[ov.len() as int], name, items, now)
        &&& forall|j: int| 0 <= j < ov.len() ==> nv[j] == ov[j]
    }
}

impl Cache {
    /// At most one entry per vault.
    pub open spec fn wf(&self) -> bool {
        forall|i: int, j: int|
            0 <= i < self.vaults@.len() && 0 <= j < self.vaults@.len() && i != j
                ==> #[trigger] self.vaults@[i].vault_name@ != #[trigger] self.vaults@[j].vault_name@
    }

    /// No item of any entry carries a secret payload.
    pub open spec fn secret_free(&self) -> bool {
        forall|i: int, k: int|
            0 <= i < self.vaults@.len() && 0 <= k < self.vaults@[i].items.items@.len()
                ==> (#[trigger] self.vaults@[i].items.items@[k]).content.content is None
    }

    pub fn new() -> (r: Cache)
        ensures
            r.vaults@.len() == 0,
            r.wf(),
            r.secret_free(),
    {
        Cache { vaults: Vec::new() }
    }
}

/// The items of the vault `vault_name` if `cache` holds a snapshot of it
/// that is still usable at `now`.
pub fn get_cached_vault(cache: &Cache, vault_name: &str, now: u64) -> (r: Option<ItemList>)
    ensures
        match r {
            Some(l) => lookup(*cache, vault_name@, now) == Some(l.items@),
            None => lookup(*cache, vault_name@, now) is None,
        },
{
    let name = String::from_str(vault_name);
    let mut i: usize = 0;
    while i < cache.vaults.len()
        invariant
            i <= cache.vaults@.len(),
            name@ == vault_name@,
            forall|j: int| 0 <= j < i ==> !hit(cache.vaults@, j, vault_name@, now),
        decreases cache.vaults@.len() - i,
    {
        let entry = &cache.vaults[i];
        if entry.vault_name == name && (now < entry.timestamp || now - entry.timestamp < CACHE_TTL_SECONDS) {
            assert(hit(cache.vaults@, i as int, vault_name@, now));
            assert(first_hit(cache.vaults@, vault_name@, now) == i as int) by {
                let f = first_hit(cache.vaults@, vault_name@, now);
                assert(hit(cache.vaults@, f, vault_name@, now));
                if f < i as int {
                } else if f > i as int {
                    assert(!hit(cache.vaults@, i as int, vault_name@, now));
                }
            }
            return Some(entry.items.copy());
        }
        i = i + 1;
    }
    None
}

/// The form in which `item` is kept in the cache.
fn strip_item(item: &Item) -> (r: Item)
    ensures
        stripped(*item, r),
{
    Item {
        content: ItemContent { title: item.content.title.clone(), content: None },
        cached_username: item.get_username(),
    }
}

fn strip_items(items: &ItemList) -> (r: ItemList)
    ensures
        stripped_all(items.items@, r.items@),
{
    let mut out: Vec<Item> = Vec::new();
    let mut i: usize = 0;
    while i < items.items.len()
        invariant
            i <= items.items@.len(),
            out@.len() == i,
            forall|k: int| 0 <= k < i ==> stripped(#[trigger] items.items@[k], out@[k]),
        decreases items.items@.len() - i,
    {
        out.push(strip_item(&items.items[i]));
        i = i + 1;
    }
    ItemList { items: out }
}

/// Writes the snapshot of `items` for the vault `vault_name`, taken at `now`,
/// into `cache`: without secret payloads, and replacing the vault's entry if
/// it has one.
pub fn set_cached_vault(cache: &mut Cache, vault_name: &str, items: &ItemList, now: u64)
    ensures
        upserted(*old(cache), *final(cache), vault_name@, items.items@, now),
        old(cache).wf() ==> final(cache).wf(),
        old(cache).secret_free() ==> final(cache).secret_free(),
{
    let name = String::from_str(vault_name);
    let entry = CachedVault { vault_name: name.clone(), items: strip_items(items), timestamp: now };
    let ghost ov = cache.vaults@;
    let mut i: usize = 0;
    while i < cache.vaults.len()
        invariant
            i <= cache.vaults@.len(),
            cache.vaults@ == ov,
            ov == old(cache).vaults@,
            name@ == vault_name@,
            new_entry(entry, vault_name@, items.items@, now),
            forall|j: int| 0 <= j < i ==> !named(ov, j, vault_name@),
        decreases cache.vaults@.len() - i,
    {
        if cache.vaults[i].vault_name == name {
            assert(named(ov, i as int, vault_name@));
            assert(first_named(ov, vault_name@) == i as int) by {
                let f = first_named(ov, vault_name@);
                assert(named(ov, f, vault_name@));
                if f > i as int {
                    assert(!named(ov, i as int, vault_name@));
                }
            }
            cache.vaults.set(i, entry);
            proof {
                lemma_upsert_keeps(*old(cache), *cache, vault_name@, items.items@, now);
            }
            return;
        }
        i = i + 1;
    }
    cache.vaults.push(entry);
    proof {
        lemma_upsert_keeps(*old(cache), *cache, vault_name@, items.items@, now);
    }
}

/// Writing a snapshot keeps one entry per vault and keeps secrets out.
proof fn lemma_upsert_keeps(old: Cache, new: Cache, name: Seq<char>, items: Seq<Item>, now: u64)
    requires
        upserted(old, new, name, items, now),
    ensures
        old.wf() ==> new.wf(),
        old.secret_free() ==> new.secret_free(),
{
    let ov = old.vaults@;
    let nv = new.vaults@;
    let p = if exists|i: int| named(ov, i, name) { first_named(ov, name) } else { ov.len() as int };
    assert(new_entry(nv[p], name, items, now));
    assert(forall|j: int| 0 <= j < nv.len() && j != p ==> nv[j] == ov[j]);
    if old.wf() {
        assert forall|i: int, j: int|
            0 <= i < nv.len() && 0 <= j < nv.len() && i != j implies
            #[trigger] nv[i].vault_name@ != #[trigger] nv[j].vault_name@ by {
            if i == p {
                if p < ov.len() {
                    assert(ov[j].vault_name@ != ov[p].vault_name@);
                } else {
                    assert(!named(ov, j, name));
                }
            } else if j == p {
                if p < ov.len() {
                    assert(ov[i].vault_name@ != ov[p].vault_name@);
                } else {
                    assert(!named(ov, i, name));
                }
            } else {
                assert(ov[i].vault_name@ != ov[j].vault_name@);
            }
        }
    }
    if old.secret_free() {
        assert forall|i: int, k: int|
            0 <= i < nv.len() && 0 <= k < nv[i].items.items@.len() implies
            (#[trigger] nv[i].items.items@[k]).content.content is None by {
            if i == p {
                assert(stripped(items[k], nv[p].items.items@[k]));
            } else {
                assert(ov[i].items.items@[k].content.content is None);
            }
        }
    }
}

/// When the vault `name` has an entry, it has a first one.
proof fn lemma_first_named(vs: Seq<CachedVault>, name: Seq<char>, i: int)
    requires
        named(vs, i, name),
    ensures
        named(vs, first_named(vs, name), name),
        forall|j: int| 0 <= j < first_named(vs, name) ==> !named(vs, j, name),
    decreases i,
{
    if exists|j: int| 0 <= j < i && named(vs, j, name) {
        let j = choose|j: int| 0 <= j < i && named(vs, j, name);
        lemma_first_named(vs, name, j);
    } else {
        assert(named(vs, i, name) && forall|j: int| 0 <= j < i ==> !named(vs, j, name));
    }
}

/// When the vault `name` has a usable entry at `now`, it has a first one.
proof fn lemma_first_hit(vs: Seq<CachedVault>, name: Seq<char>, now: u64, i: int)
    requires
        hit(vs, i, name, now),
    ensures
        hit(vs, first_hit(vs, name, now), name, now),
        forall|j: int| 0 <= j < first_hit(vs, name, now) ==> !hit(vs, j, name, now),
    decreases i,
{
    if exists|j: int| 0 <= j < i && hit(vs, j, name, now) {
        let j = choose|j: int| 0 <= j < i && hit(vs, j, name, now);
        lemma_first_hit(vs, name, now, j);
    } else {
        assert(hit(vs, i, name, now) && forall|j: int| 0 <= j < i ==> !hit(vs, j, name, now));
    }
}

/// Where the snapshot of `name` stands after it was written.
proof fn lemma_written_entry(old: Cache, new: Cache, name: Seq<char>, items: Seq<Item>, now: u64) -> (p: int)
    requires
        upserted(old, new, name, items, now),
    ensures
        0 <= p < new.vaults@.len(),
        new_entry(new.vaults@[p], name, items, now),
        forall|j: int| 0 <= j < new.vaults@.len() && j != p ==> new.vaults@[j] == old.vaults@[j],
{
    let ov = old.vaults@;
    if exists|i: int| named(ov, i, name) {
        let i = choose|i: int| named(ov, i, name);
        lemma_first_named(ov, name, i);
        first_named(ov, name)
    } else {
        ov.len() as int
    }
}

/// No item of a read's result, if any, shows a password.
pub open spec fn shows_no_password(r: Option<Seq<Item>>) -> bool {
    r matches Some(bs) ==> forall|k: int| 0 <= k < bs.len() ==> doc_password(#[trigger] bs[k].content.content) is None
}

/// A cache without secret payloads gives back no item that shows a password.
pub proof fn lemma_lookup_secret_free(c: Cache, name: Seq<char>, now: u64)
    requires
        c.secret_free(),
    ensures
        shows_no_password(lookup(c, name, now)),
{
    if exists|i: int| hit(c.vaults@, i, name, now) {
        let i = choose|i: int| hit(c.vaults@, i, name, now);
        lemma_first_hit(c.vaults@, name, now, i);
        let f = first_hit(c.vaults@, name, now);
        assert forall|k: int| 0 <= k < c.vaults@[f].items.items@.len() implies
            (#[trigger] c.vaults@[f].items.items@[k]).content.content is None by {
        }
    }
}

/// A snapshot written at `t` into a cache with at most one entry per vault is
/// what a read of that vault gives from `t` until `t + CACHE_TTL_SECONDS - 1`,
/// and a read of that vault gives nothing from `t + CACHE_TTL_SECONDS` on.
pub proof fn lemma_cache_ttl(c: Cache, c2: Cache, name: Seq<char>, items: Seq<Item>, t: u64, now: u64)
    requires
        c.wf(),
        upserted(c, c2, name, items, t),
        t <= now,
    ensures
        now < t + CACHE_TTL_SECONDS ==> (lookup(c2, name, now) matches Some(bs) && stripped_all(items, bs)),
        now >= t + CACHE_TTL_SECONDS ==> lookup(c2, name, now) is None,
{
    lemma_upsert_keeps(c, c2, name, items, t);
    let p = lemma_written_entry(c, c2, name, items, t);
    let nv = c2.vaults@;
    assert(forall|j: int| 0 <= j < nv.len() && j != p ==> !named(nv, j, name)) by {
        assert forall|j: int| 0 <= j < nv.len() && j != p implies !named(nv, j, name) by {
            assert(nv[j].vault_name@ != nv[p].vault_name@);
        }
    }
    if now < t + CACHE_TTL_SECONDS {
        assert(hit(nv, p, name, now));
        let f = first_hit(nv, name, now);
        assert(hit(nv, f, name, now));
        assert(f == p);
    } else {
        assert(!hit(nv, p, name, now));
        assert(forall|j: int| !hit(nv, j, name, now));
    }
}

/// Writing a snapshot into a cache that holds no secret payload leaves it
/// without any: no item that a read gives back shows a password.
pub proof fn lemma_secret_exclusion(c: Cache, c2: Cache, name: Seq<char>, items: Seq<Item>, t: u64)
    requires
        c.secret_free(),
        upserted(c, c2, name, items, t),
    ensures
        c2.secret_free(),
        forall|n: Seq<char>, now: u64| shows_no_password(#[trigger] lookup(c2, n, now)),
{
    lemma_upsert_keeps(c, c2, name, items, t);
    assert forall|n: Seq<char>, now: u64| shows_no_password(#[trigger] lookup(c2, n, now)) by {
        lemma_lookup_secret_free(c2, n, now);
    }
}

/// Writing snapshots of the same vault twice, into a cache with at most one
/// entry per vault, leaves exactly one entry for that vault, and it holds the
/// later snapshot.
pub proof fn lemma_upsert_idempotent(
    c0: Cache,
    c1: Cache,
    c2: Cache,
    name: Seq<char>,
    items1: Seq<Item>,
    t1: u64,
    items2: Seq<Item>,
    t2: u64,
)
    requires
        c0.wf(),
        upserted(c0, c1, name, items1, t1),
        upserted(c1, c2, name, items2, t2),
    ensures
        c2.wf(),
        c2.vaults@.len() == c1.vaults@.len(),
        exists|i: int|
            named(c2.vaults@, i, name) && new_entry(c2.vaults@[i], name, items2, t2) && forall|j: int|
                #![trigger named(c2.vaults@, j, name)]
                named(c2.vaults@, j, name) ==> j == i,
{
    lemma_upsert_keeps(c0, c1, name, items1, t1);
    lemma_upsert_keeps(c1, c2, name, items2, t2);
    let p1 = lemma_written_entry(c0, c1, name, items1, t1);
    assert(named(c1.vaults@, p1, name));
    let p2 = lemma_written_entry(c1, c2, name, items2, t2);
    let nv = c2.vaults@;
    assert(named(nv, p2, name));
    assert forall|j: int| #![trigger named(nv, j, name)] named(nv, j, name) implies j == p2 by {
        if j != p2 {
            assert(nv[j].vault_name@ != nv[p2].vault_name@);
        }
    }
}

} // verus!
