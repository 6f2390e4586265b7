use vstd::prelude::*;

use crate::member::Member;

verus! {

#[verifier::external_type_specification]
#[verifier::external_body]
#[verifier::reject_recursive_types(K)]
#[verifier::reject_recursive_types(V)]
#[verifier::reject_recursive_types(S)]
pub struct ExCache<K, V, S>(moka::sync::Cache<K, V, S>);

/// A moka cache of directory records keyed by member id.
pub type MemberCache = moka::sync::Cache<u64, Member>;

/// The latest record inserted under each key of a member cache since it was
/// built. An entry whose time to live has run out is no longer served, but
/// stays in this map: nothing here follows the clock.
pub uninterp spec fn cache_entries(c: MemberCache) -> Map<u64, Member>;

/// A directory that holds no record.
pub open spec fn no_members() -> Map<u64, Member> {
    Map::empty()
}

/// The longest time to live that moka's builder accepts: a thousand years.
pub const MAX_TTL_SECS: u64 = 31_536_000_000;

/// Relies on moka's `CacheBuilder::time_to_live` and `build`: a new cache
/// holds nothing; `build` panics above a thousand years.
#[verifier::external_body]
fn new_cache(ttl_secs: u64) -> (r: MemberCache)
    requires
        ttl_secs <= MAX_TTL_SECS,
    ensures
        cache_entries(r) == no_members(),
{
    moka::sync::Cache::builder().time_to_live(std::time::Duration::from_secs(ttl_secs)).build()
}

/// Relies on moka's `Cache::insert`: the value under `key` becomes `member`.
#[verifier::external_body]
fn cache_insert(c: &mut MemberCache, key: u64, member: Member)
    ensures
        cache_entries(*final(c)) == cache_entries(*old(c)).insert(key, member),
{
    c.insert(key, member)
}

/// Relies on moka's `Cache::get`: a clone of the value under `key` while it
/// lives, else nothing.
#[verifier::external_body]
fn cache_get(c: &MemberCache, key: u64) -> (r: Option<Member>)
    ensures
        r matches Some(m) ==> cache_entries(*c).contains_key(key) && cache_entries(*c)[key] == m,
        !cache_entries(*c).contains_key(key) ==> r is None,
{
    c.get(&key)
}

/// Relies on moka's `Cache::iter`: the live entries, each with its key.
#[verifier::external_body]
fn cache_entries_list(c: &MemberCache) -> (r: Vec<(u64, Member)>)
    ensures
        forall|i: int| 0 <= i < r@.len() ==> cache_entries(*c).contains_key((#[trigger] r@[i]).0)
            && cache_entries(*c)[r@[i].0] == r@[i].1,
{
    c.iter().map(|(k, m)| (*k, m)).collect()
}

/// The directory after upserting `ms` in order: a later record of an id wins.
pub open spec fn upsert_all(m: Map<u64, Member>, ms: Seq<Member>) -> Map<u64, Member>
    decreases ms.len(),
{
    if ms.len() == 0 {
        m
    } else {
        upsert_all(m, ms.drop_last()).insert(ms.last().id, ms.last())
    }
}

/// The external directory could not be read.
#[derive(PartialEq, Eq, Structural, Clone, Copy, Debug)]
pub enum ExternalApiError {
    Unreachable,
    BadResponse,
}

/// The local snapshot of the organization's members: a cache whose entries
/// expire a fixed time after they were last written.
pub struct GitlabService {
    cache: MemberCache,
}

impl View for GitlabService {
    type V = Map<u64, Member>;

    closed spec fn view(&self) -> Map<u64, Member> {
        cache_entries(self.cache)
    }
}

impl GitlabService {
    /// Every record is filed under its own id.
    pub open spec fn wf(&self) -> bool {
        forall|k: u64| #[trigger] self@.contains_key(k) ==> self@[k].id == k
    }

    /// An empty directory whose entries live `ttl_secs` seconds.
    pub fn new(ttl_secs: u64) -> (r: GitlabService)
        requires
            ttl_secs <= MAX_TTL_SECS,
        ensures
            r.wf(),
            r@ == no_members(),
    {
        GitlabService { cache: new_cache(ttl_secs) }
    }

    /// Seeds one record, with a fresh time to live.
    pub fn insert_member_into_cache(&mut self, member: Member)
        requires
            old(self).wf(),
        ensures
            final(self).wf(),
            final(self)@ == old(self)@.insert(member.id, member),
    {
        let id = member.id;
        cache_insert(&mut self.cache, id, member);
    }

    /// The record of `user_id`, unless it is absent or has expired.
    pub fn get_cached_member(&self, user_id: u64) -> (r: Option<Member>)
        requires
            self.wf(),
        ensures
            r matches Some(m) ==> self@.contains_key(user_id) && self@[user_id] == m && m.id == user_id,
            !self@.contains_key(user_id) ==> r is None,
    {
        cache_get(&self.cache, user_id)
    }

    /// The live records, in no particular order.
    pub fn get_all_cached_members(&self) -> (r: Vec<Member>)
        requires
            self.wf(),
        ensures
            forall|i: int| 0 <= i < r@.len() ==> self@.contains_key((#[trigger] r@[i]).id) && self@[r@[i].id] == r@[i],
    {
        let entries = cache_entries_list(&self.cache);
        let mut r: Vec<Member> = Vec::new();
        let mut i: usize = 0;
        while i < entries.len()
            invariant
                self.wf(),
                i <= entries@.len(),
                forall|q: int| 0 <= q < entries@.len() ==> self@.contains_key((#[trigger] entries@[q]).0)
                    && self@[entries@[q].0] == entries@[q].1,
                forall|q: int| 0 <= q < r@.len() ==> self@.contains_key((#[trigger] r@[q]).id) && self@[r@[q].id] == r@[q],
            decreases entries@.len() - i,
        {
            let m = entries[i].1.clone();
            assert(self@.contains_key(entries@[i as int].0));
            r.push(m);
            i += 1;
        }
        r
    }

    /// The live records of `user_ids`, in that order; ids that do not resolve
    /// are left out without notice.
    pub fn get_cached_members_by_ids(&self, user_ids: &Vec<u64>) -> (r: Vec<Member>)
        requires
            self.wf(),
        ensures
            resolved_in_order(self@, user_ids@, r@),
            r@.len() <= user_ids@.len(),
            forall|j: int| 0 <= j < r@.len() ==> user_ids@.contains((#[trigger] r@[j]).id)
                && self@.contains_key(r@[j].id) && self@[r@[j].id] == r@[j],
    {
        let mut hits: Vec<Option<Member>> = Vec::new();
        let mut i: usize = 0;
        while i < user_ids.len()
            invariant
                self.wf(),
                i <= user_ids@.len(),
                hits@.len() == i,
                forall|q: int| 0 <= q < i ==> lookup_outcome(self@, user_ids@[q], #[trigger] hits@[q]),
            decreases user_ids@.len() - i,
        {
            let found = self.get_cached_member(user_ids[i]);
            hits.push(found);
            i += 1;
        }
        proof {
            lemma_present_found(self@, user_ids@, hits@);
        }
        present_members(hits)
    }

    /// Upserts a complete fetch of the directory, each record with a fresh
    /// time to live. A failed fetch changes nothing: entries already held stay
    /// servable until their own time runs out.
    pub fn refresh_members_cache(&mut self, fetched: Result<Vec<Member>, ExternalApiError>) -> (r: Result<(), ExternalApiError>)
        requires
            old(self).wf(),
        ensures
            final(self).wf(),
            fetched matches Err(e) ==> r == Err::<(), ExternalApiError>(e) && final(self)@ == old(self)@,
            fetched matches Ok(ms) ==> r is Ok && final(self)@ == upsert_all(old(self)@, ms@),
    {
        let members = match fetched {
            Ok(ms) => ms,
            Err(e) => {
                return Err(e);
            },
        };
        let ghost start = self@;
        let mut i: usize = 0;
        assert(members@.take(0) =~= Seq::<Member>::empty());
        while i < members.len()
            invariant
                self.wf(),
                i <= members@.len(),
                self@ == upsert_all(start, members@.take(i as int)),
            decreases members@.len() - i,
        {
            assert(members@.take(i as int + 1).drop_last() =~= members@.take(i as int));
            assert(members@.take(i as int + 1).last() == members@[i as int]);
            let m = members[i].clone();
            self.insert_member_into_cache(m);
            i += 1;
        }
        assert(members@.take(members@.len() as int) =~= members@);
        Ok(())
    }
}

/// What a lookup of `id` may give: the record filed under it, or nothing
/// (absent, or past its time to live).
pub open spec fn lookup_outcome(dir: Map<u64, Member>, id: u64, hit: Option<Member>) -> bool {
    match hit {
        Some(m) => dir.contains_key(id) && dir[id] == m,
        None => true,
    }
}

/// `ms` is what looking up each of `ids` in turn gave, misses left out, in
/// the order of `ids`.
pub open spec fn resolved_in_order(dir: Map<u64, Member>, ids: Seq<u64>, ms: Seq<Member>) -> bool {
    exists|hits: Seq<Option<Member>>| {
        &&& hits.len() == ids.len()
        &&& forall|i: int| 0 <= i < hits.len() ==> lookup_outcome(dir, ids[i], #[trigger] hits[i])
        &&& ms == present(hits)
    }
}

/// The records of `hits` that are there, in order.
pub open spec fn present(hits: Seq<Option<Member>>) -> Seq<Member>
    decreases hits.len(),
{
    if hits.len() == 0 {
        seq![]
    } else {
        match hits.last() {
            Some(m) => present(hits.drop_last()).push(m),
            None => present(hits.drop_last()),
        }
    }
}

/// The records among lookup results, in order; misses are left out.
pub fn present_members(hits: Vec<Option<Member>>) -> (r: Vec<Member>)
    ensures
        r@ == present(hits@),
{
    let mut r: Vec<Member> = Vec::new();
    let mut i: usize = 0;
    assert(hits@.take(0) =~= Seq::<Option<Member>>::empty());
    while i < hits.len()
        invariant
            i <= hits@.len(),
            r@ == present(hits@.take(i as int)),
        decreases hits@.len() - i,
    {
        assert(hits@.take(i as int + 1).drop_last() =~= hits@.take(i as int));
        assert(hits@.take(i as int + 1).last() == hits@[i as int]);
        match &hits[i] {
            Some(m) => {
                r.push(m.clone());
            },
            None => {},
        }
        i += 1;
    }
    assert(hits@.take(hits@.len() as int) =~= hits@);
    r
}

/// Every record of `present(hits)` is one that `hits` found for `ids`.
pub proof fn lemma_present_found(dir: Map<u64, Member>, ids: Seq<u64>, hits: Seq<Option<Member>>)
    requires
        hits.len() == ids.len(),
        forall|i: int| 0 <= i < hits.len() ==> lookup_outcome(dir, ids[i], #[trigger] hits[i]),
        forall|k: u64| #[trigger] dir.contains_key(k) ==> dir[k].id == k,
    ensures
        present(hits).len() <= hits.len(),
        forall|j: int| 0 <= j < present(hits).len() ==> ids.contains((#[trigger] present(hits)[j]).id)
            && dir.contains_key(present(hits)[j].id) && dir[present(hits)[j].id] == present(hits)[j],
    decreases hits.len(),
{
    if hits.len() > 0 {
        let hs = hits.drop_last();
        let is = ids.drop_last();
        assert forall|i: int| 0 <= i < hs.len() implies lookup_outcome(dir, is[i], #[trigger] hs[i]) by {
            assert(hs[i] == hits[i] && is[i] == ids[i]);
        }
        lemma_present_found(dir, is, hs);
        assert(lookup_outcome(dir, ids[hits.len() - 1], hits[hits.len() - 1]));
        let p = present(hits);
        assert forall|j: int| 0 <= j < p.len() implies ids.contains((#[trigger] p[j]).id)
            && dir.contains_key(p[j].id) && dir[p[j].id] == p[j] by {
            if j < present(hs).len() {
                assert(p[j] == present(hs)[j]);
                let q = choose|q: int| 0 <= q < is.len() && is[q] == p[j].id;
                assert(ids[q] == is[q]);
            } else {
                assert(ids[ids.len() - 1] == p[j].id);
            }
        }
    }
}

/// Pause before the next refresh: the normal interval after a success, a
/// short fixed retry delay after a failure.
pub const REFRESH_RETRY_DELAY_SECS: u64 = 5;

pub fn next_refresh_delay(last: &Result<(), ExternalApiError>, interval_secs: u64) -> (r: u64)
    ensures
        last is Ok ==> r == interval_secs,
        last is Err ==> r == REFRESH_RETRY_DELAY_SECS,
{
    match last {
        Ok(()) => interval_secs,
        Err(_) => REFRESH_RETRY_DELAY_SECS,
    }
}

/// Walks the pages of the directory listing, one fetch at a time: pages are
/// numbered from 1, and a page shorter than the page size is the last.
pub struct GroupMembersPager {
    pub members: Vec<Member>,
    pub next_page: usize,
    pub page_size: usize,
    pub done: bool,
}

impl GroupMembersPager {
    pub fn new(page_size: usize) -> (r: GroupMembersPager)
        requires
            page_size > 0,
        ensures
            r.members@.len() == 0,
            r.next_page == 1,
            r.page_size == page_size,
            !r.done,
    {
        GroupMembersPager { members: Vec::new(), next_page: 1, page_size, done: false }
    }

    /// Takes in the page numbered `next_page`.
    pub fn on_page(&mut self, page: Vec<Member>)
        requires
            !old(self).done,
            old(self).next_page < usize::MAX,
        ensures
            final(self).members@ == old(self).members@ + page@,
            final(self).next_page == old(self).next_page + 1,
            final(self).page_size == old(self).page_size,
            final(self).done == (page@.len() < old(self).page_size),
    {
        let mut page = page;
        let n = page.len();
        self.members.append(&mut page);
        self.next_page = self.next_page + 1;
        self.done = n < self.page_size;
    }
}

} // verus!
