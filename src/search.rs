use vstd::prelude::*;
use vstd::string::*;

use crate::cache::{Cache, get_cached_vault, lookup, lemma_lookup_secret_free};
use crate::models::{Item, ItemList, Match, opt_view, item_username, doc_password};

verus! {

/// The most vault listings that run at the same time.
pub const MAX_CONCURRENT: usize = 10;

/// What `str::to_lowercase` gives for a text.
pub uninterp spec fn lower_of(s: Seq<char>) -> Seq<char>;

/// Relies on `str::to_lowercase`: the result depends on the characters alone.
#[verifier::external_body]
fn to_lower(s: &str) -> (r: String)
    ensures
        r@ == lower_of(s@),
        s@.len() == 0 ==> r@.len() == 0,
{
    s.to_lowercase()
}

/// `needle` occurs in `hay` as a run of consecutive characters.
pub open spec fn is_substring(needle: Seq<char>, hay: Seq<char>) -> bool {
    exists|i: int| 0 <= i && i + needle.len() <= hay.len() && #[trigger] hay.subrange(i, i + needle.len()) == needle
}

/// Whether `needle` occurs in `hay`.
fn contains_text(hay: &str, needle: &str) -> (r: bool)
    ensures
        r == is_substring(needle@, hay@),
{
    let h = hay.unicode_len();
    let m = needle.unicode_len();
    if m > h {
        return false;
    }
    let mut i: usize = 0;
    while i <= h - m
        invariant
            h == hay@.len(),
            m == needle@.len(),
            m <= h,
            i <= h - m + 1,
            forall|k: int| 0 <= k < i ==> #[trigger] hay@.subrange(k, k + m) != needle@,
        decreases h - m + 1 - i,
    {
        let mut j: usize = 0;
        while j < m && hay.get_char(i + j) == needle.get_char(j)
            invariant
                h == hay@.len(),
                m == needle@.len(),
                i + m <= h,
                j <= m,
                forall|t: int| 0 <= t < j ==> hay@[i + t] == needle@[t],
            decreases m - j,
        {
            j = j + 1;
        }
        if j == m {
            assert(hay@.subrange(i as int, i + m) =~= needle@);
            return true;
        }
        assert(hay@.subrange(i as int, i + m)[j as int] != needle@[j as int]);
        i = i + 1;
    }
    assert forall|k: int| 0 <= k && k + needle@.len() <= hay@.len() implies #[trigger] hay@.subrange(k, k + needle@.len()) != needle@ by {
        assert(k < i);
    }
    false
}

/// The places, in order, of the titles in which the query occurs.
pub open spec fn hit_indices(titles: Seq<Seq<char>>, query: Seq<char>) -> Seq<int>
    decreases titles.len(),
{
    if titles.len() == 0 {
        Seq::empty()
    } else {
        let rest = hit_indices(titles.drop_last(), query);
        if is_substring(query, titles.last()) {
            rest.push(titles.len() - 1)
        } else {
            rest
        }
    }
}

/// `m` is the match that `item` of the vault `vault` gives.
pub open spec fn match_of(m: Match, item: Item, vault: Seq<char>) -> bool {
    &&& m.title@ == item.content.title@
    &&& m.vault_name@ == vault
    &&& opt_view(m.username) == item_username(item)
    &&& opt_view(m.password) == doc_password(item.content.content)
}

/// `ms` are the matches, in order, of the items at the places `idx`.
pub open spec fn matches_at(ms: Seq<Match>, items: Seq<Item>, idx: Seq<int>, vault: Seq<char>) -> bool {
    &&& ms.len() == idx.len()
    &&& forall|k: int| 0 <= k < ms.len() ==> 0 <= #[trigger] idx[k] < items.len() && match_of(ms[k], items[idx[k]], vault)
}

/// The titles of `items` in lower case.
pub open spec fn lower_titles(items: Seq<Item>) -> Seq<Seq<char>> {
    items.map_values(|it: Item| lower_of(it.content.title@))
}

/// The empty query occurs in every title.
proof fn lemma_empty_query_hits_all(titles: Seq<Seq<char>>, query: Seq<char>)
    requires
        query.len() == 0,
    ensures
        hit_indices(titles, query).len() == titles.len(),
        forall|k: int| 0 <= k < titles.len() ==> #[trigger] hit_indices(titles, query)[k] == k,
    decreases titles.len(),
{
    if titles.len() > 0 {
        lemma_empty_query_hits_all(titles.drop_last(), query);
        assert(titles.last().subrange(0int, 0int + query.len()) =~= query);
        assert(is_substring(query, titles.last()));
    }
}

fn match_for(item: &Item, vault_name: &String) -> (r: Match)
    ensures
        match_of(r, *item, vault_name@),
{
    Match {
        title: item.content.title.clone(),
        vault_name: vault_name.clone(),
        username: item.get_username(),
        password: item.content.get_password(),
    }
}

/// The matches among `items` of the vault `vault_name`, given each item's
/// title in lower case (`titles`) and the query in lower case: the items
/// whose lowered title holds the lowered query, in their order.
pub fn search_lowered(vault_name: &String, items: &ItemList, titles: &Vec<String>, query: &str) -> (r: Vec<Match>)
    requires
        titles@.len() == items.items@.len(),
    ensures
        matches_at(r@, items.items@, hit_indices(titles@.map_values(|s: String| s@), query@), vault_name@),
{
    let ghost tv = titles@.map_values(|s: String| s@);
    let mut out: Vec<Match> = Vec::new();
    let mut i: usize = 0;
    while i < items.items.len()
        invariant
            i <= items.items@.len(),
            titles@.len() == items.items@.len(),
            tv == titles@.map_values(|s: String| s@),
            matches_at(out@, items.items@, hit_indices(tv.subrange(0, i as int), query@), vault_name@),
        decreases items.items@.len() - i,
    {
        let ghost before = hit_indices(tv.subrange(0, i as int), query@);
        assert(tv.subrange(0, i as int + 1).drop_last() =~= tv.subrange(0, i as int));
        if contains_text(titles[i].as_str(), query) {
            out.push(match_for(&items.items[i], vault_name));
            assert(hit_indices(tv.subrange(0, i as int + 1), query@) == before.push(i as int));
        } else {
            assert(hit_indices(tv.subrange(0, i as int + 1), query@) == before);
        }
        i = i + 1;
    }
    assert(tv.subrange(0, i as int) =~= tv);
    out
}

/// The matches of `query` among `items` of the vault `vault_name`: the items
/// whose title holds the query, letter case aside, in their order.
pub fn search_vault(vault_name: &String, items: &ItemList, query: &str) -> (r: Vec<Match>)
    ensures
        matches_at(r@, items.items@, hit_indices(lower_titles(items.items@), lower_of(query@)), vault_name@),
        query@.len() == 0 ==> r@.len() == items.items@.len() && forall|k: int|
            0 <= k < r@.len() ==> match_of(#[trigger] r@[k], items.items@[k], vault_name@),
{
    let lower_query = to_lower(query);
    proof {
        if query@.len() == 0 {
            lemma_empty_query_hits_all(lower_titles(items.items@), lower_of(query@));
        }
    }
    let mut titles: Vec<String> = Vec::new();
    let mut i: usize = 0;
    while i < items.items.len()
        invariant
            i <= items.items@.len(),
            titles@.len() == i,
            forall|k: int| 0 <= k < i ==> (#[trigger] titles@[k])@ == lower_of(items.items@[k].content.title@),
        decreases items.items@.len() - i,
    {
        titles.push(to_lower(items.items[i].content.title.as_str()));
        i = i + 1;
    }
    assert(titles@.map_values(|s: String| s@) =~= lower_titles(items.items@));
    let r = search_lowered(vault_name, items, &titles, lower_query.as_str());
    proof {
        if query@.len() == 0 {
            let idx = hit_indices(lower_titles(items.items@), lower_of(query@));
            assert forall|k: int| 0 <= k < r@.len() implies match_of(#[trigger] r@[k], items.items@[k], vault_name@) by {
                assert(idx[k] == k);
            }
        }
    }
    r
}

/// What searching one vault comes to before any live listing.
pub enum VaultStep {
    /// The cache held a usable snapshot; these are its matches.
    Found(Vec<Match>),
    /// The cache held none: the vault must be listed live (and the listing
    /// written through to the cache).
    NeedListing,
}

/// Searches the vault `vault_name` in `cache` at `now`: from its snapshot
/// when that is still usable, else asks for a live listing. Matches served
/// from a cache without secret payloads carry no password.
pub fn search_cached(cache: &Cache, vault_name: &String, query: &str, now: u64) -> (r: VaultStep)
    ensures
        match lookup(*cache, vault_name@, now) {
            Some(items) => (r matches VaultStep::Found(ms) && matches_at(
                ms@,
                items,
                hit_indices(lower_titles(items), lower_of(query@)),
                vault_name@,
            )),
            None => r is NeedListing,
        },
        cache.secret_free() ==> (r matches VaultStep::Found(ms) ==> forall|k: int|
            0 <= k < ms@.len() ==> (#[trigger] ms@[k]).password is None),
{
    match get_cached_vault(cache, vault_name.as_str(), now) {
        Some(items) => {
            let ms = search_vault(vault_name, &items, query);
            proof {
                if cache.secret_free() {
                    lemma_lookup_secret_free(*cache, vault_name@, now);
                    let idx = hit_indices(lower_titles(items.items@), lower_of(query@));
                    assert forall|k: int| 0 <= k < ms@.len() implies (#[trigger] ms@[k]).password is None by {
                        assert(0 <= idx[k] < items.items@.len());
                        assert(doc_password(items.items@[idx[k]].content.content) is None);
                    }
                }
            }
            VaultStep::Found(ms)
        },
        None => VaultStep::NeedListing,
    }
}

/// The matches of the vaults whose search succeeded, in the order of `rs`.
pub open spec fn ok_matches<E>(rs: Seq<Result<Vec<Match>, E>>) -> Seq<Match>
    decreases rs.len(),
{
    if rs.len() == 0 {
        Seq::empty()
    } else {
        let rest = ok_matches(rs.subrange(1, rs.len() as int));
        match rs[0] {
            Ok(ms) => ms@ + rest,
            Err(_) => rest,
        }
    }
}

/// The failures of `rs`, in order.
pub open spec fn failures<E>(rs: Seq<Result<Vec<Match>, E>>) -> Seq<E>
    decreases rs.len(),
{
    if rs.len() == 0 {
        Seq::empty()
    } else {
        let rest = failures(rs.subrange(1, rs.len() as int));
        match rs[0] {
            Ok(_) => rest,
            Err(e) => seq![e] + rest,
        }
    }
}

/// The outcomes of two runs of vault searches, one after the other, give the
/// matches and failures of each, one after the other.
pub proof fn lemma_ok_matches_concat<E>(a: Seq<Result<Vec<Match>, E>>, b: Seq<Result<Vec<Match>, E>>)
    ensures
        ok_matches(a + b) == ok_matches(a) + ok_matches(b),
        failures(a + b) == failures(a) + failures(b),
    decreases a.len(),
{
    if a.len() == 0 {
        assert(a + b =~= b);
    } else {
        assert((a + b).subrange(1, (a + b).len() as int) =~= a.subrange(1, a.len() as int) + b);
        lemma_ok_matches_concat(a.subrange(1, a.len() as int), b);
        match a[0] {
            Ok(ms) => {
                assert(ms@ + (ok_matches(a.subrange(1, a.len() as int)) + ok_matches(b)) =~= (ms@ + ok_matches(a.subrange(1, a.len() as int))) + ok_matches(b));
            },
            Err(e) => {
                assert(seq![e] + (failures(a.subrange(1, a.len() as int)) + failures(b)) =~= (seq![e] + failures(a.subrange(1, a.len() as int))) + failures(b));
            },
        }
    }
}

/// A vault whose search failed adds no match and takes none away: the result
/// is the matches of the other vaults, in order, and the search as a whole
/// does not fail.
pub proof fn lemma_partial_failure<E>(rs: Seq<Result<Vec<Match>, E>>, k: int)
    requires
        0 <= k < rs.len(),
        rs[k] is Err,
    ensures
        ok_matches(rs) == ok_matches(rs.remove(k)),
        ok_matches(rs) == ok_matches(rs.subrange(0, k)) + ok_matches(rs.subrange(k + 1, rs.len() as int)),
{
    let a = rs.subrange(0, k);
    let b = rs.subrange(k, k + 1);
    let c = rs.subrange(k + 1, rs.len() as int);
    assert(rs =~= a + (b + c));
    assert(rs.remove(k) =~= a + c);
    lemma_ok_matches_concat(b, c);
    lemma_ok_matches_concat(a, b + c);
    lemma_ok_matches_concat(a, c);
    assert(b[0] == rs[k]);
    assert(b.subrange(1, 1) =~= Seq::<Result<Vec<Match>, E>>::empty());
    assert(ok_matches(b.subrange(1, 1)) == Seq::<Match>::empty());
    assert(ok_matches(b) == Seq::<Match>::empty());
    assert(ok_matches(b + c) =~= ok_matches(c));
}

/// Gathers the outcomes of the vault searches: the matches of those that
/// succeeded, and the failures of the others, each in order.
pub fn merge_results<E>(results: Vec<Result<Vec<Match>, E>>) -> (r: (Vec<Match>, Vec<E>))
    ensures
        r.0@ == ok_matches(results@),
        r.1@ == failures(results@),
{
    let ghost all = results@;
    let mut results = results;
    let mut matches: Vec<Match> = Vec::new();
    let mut errors: Vec<E> = Vec::new();
    while results.len() > 0
        invariant
            matches@ + ok_matches(results@) == ok_matches(all),
            errors@ + failures(results@) == failures(all),
        decreases results@.len(),
    {
        let ghost before = results@;
        let r = results.remove(0);
        assert(results@ =~= before.subrange(1, before.len() as int));
        match r {
            Ok(ms) => {
                let mut ms = ms;
                proof {
                    assert(matches@ + (ms@ + ok_matches(results@)) =~= (matches@ + ms@) + ok_matches(results@));
                }
                matches.append(&mut ms);
            },
            Err(e) => {
                proof {
                    assert(errors@ + (seq![e] + failures(results@)) =~= errors@.push(e) + failures(results@));
                }
                errors.push(e);
            },
        }
    }
    assert(matches@ + ok_matches(results@) =~= matches@);
    assert(errors@ + failures(results@) =~= errors@);
    (matches, errors)
}

/// The schedule of a fan-out over `total` vaults: vaults are started in
/// order, and at most `MAX_CONCURRENT` of them are in flight at any time; the
/// others wait until a running one finishes.
pub struct FanOut {
    /// How many vaults there are.
    pub total: usize,
    /// How many vaults have been started.
    pub started: usize,
    /// How many started vaults have not finished yet.
    pub in_flight: usize,
}

impl FanOut {
    pub open spec fn wf(&self) -> bool {
        &&& self.started <= self.total
        &&& self.in_flight <= self.started
        &&& self.in_flight <= MAX_CONCURRENT
    }

    pub fn new(total: usize) -> (r: FanOut)
        ensures
            r.wf(),
            r.total == total,
            r.started == 0,
            r.in_flight == 0,
    {
        FanOut { total, started: 0, in_flight: 0 }
    }

    /// Starts the next waiting vault, if there is one and a slot is free, and
    /// gives its place.
    pub fn start_next(&mut self) -> (r: Option<usize>)
        requires
            old(self).wf(),
        ensures
            final(self).wf(),
            final(self).in_flight <= MAX_CONCURRENT,
            if old(self).in_flight < MAX_CONCURRENT && old(self).started < old(self).total {
                &&& r == Some(old(self).started)
                &&& started_next(*old(self), *final(self))
            } else {
                &&& r is None
                &&& *final(self) == *old(self)
            },
    {
        if self.in_flight < MAX_CONCURRENT && self.started < self.total {
            let i = self.started;
            self.started = self.started + 1;
            self.in_flight = self.in_flight + 1;
            Some(i)
        } else {
            None
        }
    }

    /// Records that one vault in flight has finished, which frees its slot.
    pub fn finish_one(&mut self)
        requires
            old(self).wf(),
            old(self).in_flight > 0,
        ensures
            final(self).wf(),
            finished_one(*old(self), *final(self)),
    {
        self.in_flight = self.in_flight - 1;
    }

    /// Whether every vault has been started and has finished.
    pub fn is_done(&self) -> (r: bool)
        ensures
            r == (self.started == self.total && self.in_flight == 0),
    {
        self.started == self.total && self.in_flight == 0
    }

    /// How many vaults are in flight.
    pub fn running(&self) -> (r: usize)
        ensures
            r == self.in_flight,
    {
        self.in_flight
    }
}

/// `t` is `s` after the next waiting vault was started.
pub open spec fn started_next(s: FanOut, t: FanOut) -> bool {
    &&& s.in_flight < MAX_CONCURRENT
    &&& s.started < s.total
    &&& t.total == s.total
    &&& t.started == s.started + 1
    &&& t.in_flight == s.in_flight + 1
}

/// `t` is `s` after one vault in flight finished.
pub open spec fn finished_one(s: FanOut, t: FanOut) -> bool {
    &&& s.in_flight > 0
    &&& t.total == s.total
    &&& t.started == s.started
    &&& t.in_flight == s.in_flight - 1
}

/// One step of a schedule: a start, a finish, or nothing.
pub open spec fn schedule_step(s: FanOut, t: FanOut) -> bool {
    started_next(s, t) || finished_one(s, t) || t == s
}

/// Whatever the number of vaults, and whatever the order in which starts and
/// finishes come, a schedule that begins with nothing started never has more
/// than `MAX_CONCURRENT` vaults in flight, and never starts more vaults than
/// there are.
pub proof fn lemma_concurrency_bound(trace: Seq<FanOut>)
    requires
        trace.len() > 0,
        trace[0].started == 0,
        trace[0].in_flight == 0,
        forall|i: int| 0 <= i < trace.len() - 1 ==> schedule_step(#[trigger] trace[i], trace[i + 1]),
    ensures
        forall|i: int| 0 <= i < trace.len() ==> (#[trigger] trace[i]).wf() && trace[i].in_flight <= MAX_CONCURRENT,
{
    assert forall|i: int| 0 <= i < trace.len() implies (#[trigger] trace[i]).wf() by {
        lemma_trace_wf(trace, i);
    }
}

proof fn lemma_trace_wf(trace: Seq<FanOut>, i: int)
    requires
        0 <= i < trace.len(),
        trace[0].started == 0,
        trace[0].in_flight == 0,
        forall|i: int| 0 <= i < trace.len() - 1 ==> schedule_step(#[trigger] trace[i], trace[i + 1]),
    ensures
        trace[i].wf(),
    decreases i,
{
    if i > 0 {
        lemma_trace_wf(trace, i - 1);
        assert(schedule_step(trace[i - 1], trace[i]));
    }
}

} // verus!