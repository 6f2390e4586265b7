use vstd::multiset::Multiset;
use vstd::prelude::*;

use crate::directory::{resolved_in_order, GitlabService};
use crate::events::{Guild, GuildEvent, GuildEventView, GuildView};
use crate::forms::GuildFormDTO;
use crate::member::Member;
use crate::personalize::{find_member, lookup, ConsistencyError};

verus! {

/// A guild as the store holds it: members by id only.
pub struct GuildDocument {
    pub id: u64,
    pub name: String,
    pub created_by_user_id: u64,
    pub member_ids: Vec<u64>,
    pub updated_at: u64,
    pub created_at: u64,
}

pub struct GuildDocumentView {
    pub id: u64,
    pub name: Seq<char>,
    pub created_by_user_id: u64,
    pub member_ids: Seq<u64>,
    pub updated_at: u64,
    pub created_at: u64,
}

impl View for GuildDocument {
    type V = GuildDocumentView;

    open spec fn view(&self) -> GuildDocumentView {
        GuildDocumentView {
            id: self.id,
            name: self.name@,
            created_by_user_id: self.created_by_user_id,
            member_ids: self.member_ids@,
            updated_at: self.updated_at,
            created_at: self.created_at,
        }
    }
}

impl Clone for GuildDocument {
    fn clone(&self) -> (r: GuildDocument)
        ensures
            r@ == self@,
    {
        GuildDocument {
            id: self.id,
            name: self.name.clone(),
            created_by_user_id: self.created_by_user_id,
            member_ids: self.member_ids.clone(),
            updated_at: self.updated_at,
            created_at: self.created_at,
        }
    }
}

/// Why a guild operation did not take place.
#[derive(PartialEq, Eq, Structural, Clone, Copy, Debug)]
pub enum GuildError {
    /// No such guild, or none that this member may change.
    NotFound,
    /// The store cannot take another guild: its ids are used up.
    Persistence,
}

/// Member `u` may see guild `d`: they created it or belong to it.
pub open spec fn can_see(d: GuildDocumentView, u: u64) -> bool {
    d.created_by_user_id == u || d.member_ids.contains(u)
}

/// The ids of `ms`, in order.
pub open spec fn member_ids_of(ms: Seq<Member>) -> Seq<u64> {
    ms.map_values(|m: Member| m.id)
}

pub struct GuildsState {
    pub guilds: Seq<GuildDocumentView>,
    pub next_id: u64,
    pub events: Seq<GuildEventView>,
}

/// The guilds, and the events that each change publishes, in order.
pub struct GuildsService {
    guilds: Vec<GuildDocument>,
    next_id: u64,
    events: Vec<GuildEvent>,
}

impl View for GuildsService {
    type V = GuildsState;

    closed spec fn view(&self) -> GuildsState {
        GuildsState {
            guilds: self.guilds@.map_values(|d: GuildDocument| d@),
            next_id: self.next_id,
            events: self.events@.map_values(|e: GuildEvent| e@),
        }
    }
}

/// The position of guild `id` in the store.
pub open spec fn guild_index(gs: Seq<GuildDocumentView>, id: u64) -> int {
    choose|k: int| 0 <= k < gs.len() && gs[k].id == id
}

pub open spec fn has_guild(gs: Seq<GuildDocumentView>, id: u64) -> bool {
    exists|k: int| 0 <= k < gs.len() && gs[k].id == id
}

fn ids_of_members(ms: &Vec<Member>) -> (r: Vec<u64>)
    ensures
        r@ == member_ids_of(ms@),
{
    let mut r: Vec<u64> = Vec::new();
    let mut i: usize = 0;
    while i < ms.len()
        invariant
            i <= ms@.len(),
            r@.len() == i,
            forall|k: int| 0 <= k < i ==> r@[k] == ms@[k].id,
        decreases ms@.len() - i,
    {
        r.push(ms[i].id);
        i += 1;
    }
    assert(r@ =~= member_ids_of(ms@));
    r
}

/// The records of `all` whose ids are among `ids`, in the order of `all`.
pub open spec fn members_among(all: Seq<Member>, ids: Seq<u64>) -> Seq<Member> {
    all.filter(|m: Member| ids.contains(m.id))
}

/// A guild as shown: its members and creator resolved among `all_members`.
/// The creator must resolve; members that do not are left out.
pub fn assemble_guild(doc: &GuildDocument, all_members: &Vec<Member>, topics_count: usize) -> (r: Result<Guild, ConsistencyError>)
    ensures
        r is Err <==> lookup(all_members@, doc.created_by_user_id) is None,
        r is Err ==> r == Err::<Guild, ConsistencyError>(ConsistencyError::MissingCreator(doc.created_by_user_id)),
        r matches Ok(g) ==> g@ == (GuildView {
            id: doc.id,
            name: doc.name@,
            members: members_among(all_members@, doc.member_ids@),
            topics_count,
            created_by_user: lookup(all_members@, doc.created_by_user_id)->Some_0,
            updated_at: doc.updated_at,
            created_at: doc.created_at,
        }),
{
    let created_by_user = match find_member(all_members, doc.created_by_user_id) {
        Some(m) => m,
        None => {
            return Err(ConsistencyError::MissingCreator(doc.created_by_user_id));
        },
    };
    let ghost pred = |m: Member| doc.member_ids@.contains(m.id);
    let mut members: Vec<Member> = Vec::new();
    let mut i: usize = 0;
    assert(all_members@.take(0) =~= Seq::<Member>::empty());
    while i < all_members.len()
        invariant
            i <= all_members@.len(),
            pred == (|m: Member| doc.member_ids@.contains(m.id)),
            members@ == all_members@.take(i as int).filter(pred),
        decreases all_members@.len() - i,
    {
        assert(all_members@.take(i as int + 1) =~= all_members@.take(i as int).push(all_members@[i as int]));
        proof {
            all_members@.take(i as int).lemma_filter_push(all_members@[i as int], pred);
        }
        if crate::votes::has_voter(&doc.member_ids, all_members[i].id) {
            members.push(all_members[i].clone());
        }
        i += 1;
    }
    assert(all_members@.take(all_members@.len() as int) =~= all_members@);
    Ok(Guild {
        id: doc.id,
        name: doc.name.clone(),
        members,
        topics_count,
        created_by_user,
        updated_at: doc.updated_at,
        created_at: doc.created_at,
    })
}

/// The guilds of `gs` that member `u` may see, in store order.
pub open spec fn visible(gs: Seq<GuildDocumentView>, u: u64) -> Seq<GuildDocumentView>
    decreases gs.len(),
{
    if gs.len() == 0 {
        seq![]
    } else if can_see(gs.last(), u) {
        visible(gs.drop_last(), u).push(gs.last())
    } else {
        visible(gs.drop_last(), u)
    }
}

/// Places `d` before the first guild of `s` created earlier than it.
pub open spec fn insert_by_created(s: Seq<GuildDocumentView>, d: GuildDocumentView) -> Seq<GuildDocumentView>
    decreases s.len(),
{
    if s.len() == 0 {
        seq![d]
    } else if d.created_at > s[0].created_at {
        seq![d] + s
    } else {
        seq![s[0]] + insert_by_created(s.drop_first(), d)
    }
}

/// `s` sorted by creation time, newest first; ties keep their order.
pub open spec fn newest_first(s: Seq<GuildDocumentView>) -> Seq<GuildDocumentView>
    decreases s.len(),
{
    if s.len() == 0 {
        seq![]
    } else {
        insert_by_created(newest_first(s.drop_last()), s.last())
    }
}

proof fn lemma_insert_by_created_split(s: Seq<GuildDocumentView>, d: GuildDocumentView, p: int)
    requires
        0 <= p <= s.len(),
        forall|i: int| 0 <= i < p ==> !(d.created_at > (#[trigger] s[i]).created_at),
        p == s.len() || d.created_at > s[p].created_at,
    ensures
        insert_by_created(s, d) == s.take(p) + seq![d] + s.skip(p),
    decreases s.len(),
{
    if s.len() == 0 {
        assert(s.take(p) + seq![d] + s.skip(p) =~= seq![d]);
    } else if p == 0 {
        assert(s.take(p) + seq![d] + s.skip(p) =~= seq![d] + s);
    } else {
        let t = s.drop_first();
        assert forall|i: int| 0 <= i < p - 1 implies !(d.created_at > (#[trigger] t[i]).created_at) by {
            assert(t[i] == s[i + 1]);
        }
        lemma_insert_by_created_split(t, d, p - 1);
        assert(s.take(p) + seq![d] + s.skip(p) =~= seq![s[0]] + (t.take(p - 1) + seq![d] + t.skip(p - 1)));
    }
}

/// Newest first: no guild comes before one created later.
pub open spec fn is_newest_first(s: Seq<GuildDocumentView>) -> bool {
    forall|i: int, j: int| 0 <= i < j < s.len() ==> (#[trigger] s[i]).created_at >= (#[trigger] s[j]).created_at
}

proof fn lemma_insert_by_created_keeps_order(s: Seq<GuildDocumentView>, d: GuildDocumentView)
    requires
        is_newest_first(s),
    ensures
        is_newest_first(insert_by_created(s, d)),
        insert_by_created(s, d).to_multiset() == s.to_multiset().insert(d),
    decreases s.len(),
{
    broadcast use vstd::seq_lib::group_to_multiset_ensures;
    if s.len() == 0 {
        assert(seq![d] =~= Seq::<GuildDocumentView>::empty().push(d));
    } else if d.created_at > s[0].created_at {
        let r = seq![d] + s;
        assert forall|i: int, j: int| 0 <= i < j < r.len() implies (#[trigger] r[i]).created_at >= (#[trigger] r[j]).created_at by {
            if i > 0 {
                assert(r[i] == s[i - 1] && r[j] == s[j - 1]);
            } else {
                assert(r[j] == s[j - 1]);
                if j - 1 > 0 {
                    assert(s[0].created_at >= s[j - 1].created_at);
                }
            }
        }
        vstd::seq_lib::lemma_multiset_commutative(seq![d], s);
        assert(seq![d].to_multiset() =~= Multiset::empty().insert(d)) by {
            assert(seq![d] =~= Seq::<GuildDocumentView>::empty().push(d));
        }
    } else {
        let t = s.drop_first();
        assert(is_newest_first(t)) by {
            assert forall|i: int, j: int| 0 <= i < j < t.len() implies (#[trigger] t[i]).created_at >= (#[trigger] t[j]).created_at by {
                assert(t[i] == s[i + 1] && t[j] == s[j + 1]);
            }
        }
        lemma_insert_by_created_keeps_order(t, d);
        let it = insert_by_created(t, d);
        let r = seq![s[0]] + it;
        assert forall|i: int, j: int| 0 <= i < j < r.len() implies (#[trigger] r[i]).created_at >= (#[trigger] r[j]).created_at by {
            if i > 0 {
                assert(r[i] == it[i - 1] && r[j] == it[j - 1]);
            } else {
                assert(r[j] == it[j - 1]);
                assert(it.to_multiset().count(it[j - 1]) > 0);
                if it[j - 1] != d {
                    assert(t.to_multiset().count(it[j - 1]) > 0);
                    let q = choose|q: int| 0 <= q < t.len() && t[q] == it[j - 1];
                    assert(t[q] == s[q + 1]);
                }
            }
        }
        vstd::seq_lib::lemma_multiset_commutative(seq![s[0]], it);
        vstd::seq_lib::lemma_multiset_commutative(seq![s[0]], t);
        assert(seq![s[0]] + t =~= s);
    }
}

/// `newest_first` sorts: its result is newest first and holds exactly the
/// guilds it was given.
pub proof fn lemma_newest_first_sorts(s: Seq<GuildDocumentView>)
    ensures
        is_newest_first(newest_first(s)),
        newest_first(s).to_multiset() == s.to_multiset(),
    decreases s.len(),
{
    broadcast use vstd::seq_lib::group_to_multiset_ensures;
    if s.len() > 0 {
        lemma_newest_first_sorts(s.drop_last());
        lemma_insert_by_created_keeps_order(newest_first(s.drop_last()), s.last());
        assert(s.drop_last().push(s.last()) =~= s);
    }
}

/// `g` shows the stored guild `d`: creator and members taken from the
/// directory `dir`, topics counted in the store `ts`.
pub open spec fn shows_guild(g: Guild, d: GuildDocumentView, dir: Map<u64, Member>, ts: Seq<crate::topic::TopicView>) -> bool {
    &&& g.id == d.id
    &&& g.name@ == d.name
    &&& g.topics_count == crate::topics::count_in_guild(ts, d.id)
    &&& dir.contains_key(d.created_by_user_id)
    &&& g.created_by_user == dir[d.created_by_user_id]
    &&& resolved_in_order(dir, d.member_ids, g.members@)
    &&& g.updated_at == d.updated_at
    &&& g.created_at == d.created_at
}

/// Guild `d` as shown: creator and members resolved through the directory
/// (members that do not resolve are left out), topics counted.
pub fn show_guild(d: &GuildDocument, directory: &GitlabService, topics: &crate::topics::TopicsService) -> (r: Result<Guild, ConsistencyError>)
    requires
        directory.wf(),
        topics.wf(),
    ensures
        !directory@.contains_key(d.created_by_user_id) ==> r == Err::<Guild, ConsistencyError>(ConsistencyError::MissingCreator(d.created_by_user_id)),
        r matches Ok(g) ==> shows_guild(g, d@, directory@, topics@.topics),
        r matches Err(e) ==> e == ConsistencyError::MissingCreator(d.created_by_user_id),
{
    let counts = topics.get_topics_count_by_guild_ids(&vec![d.id]);
    let count = counts[0];
    let mut ids: Vec<u64> = Vec::new();
    ids.push(d.created_by_user_id);
    let found = directory.get_cached_members_by_ids(&ids);
    let g = match assemble_guild(d, &found, count) {
        Ok(g) => g,
        Err(e) => {
            return Err(e);
        },
    };
    let members = directory.get_cached_members_by_ids(&d.member_ids);
    proof {
        crate::personalize::lemma_lookup_member(found@, d.created_by_user_id);
    }
    Ok(Guild {
        id: g.id,
        name: g.name,
        members,
        topics_count: g.topics_count,
        created_by_user: g.created_by_user,
        updated_at: g.updated_at,
        created_at: g.created_at,
    })
}

impl GuildsService {
    pub closed spec fn wf(&self) -> bool {
        &&& forall|i: int, j: int| 0 <= i < self@.guilds.len() && 0 <= j < self@.guilds.len() && i != j
            ==> self@.guilds[i].id != self@.guilds[j].id
        &&& forall|i: int| 0 <= i < self@.guilds.len() ==> (#[trigger] self@.guilds[i]).id < self@.next_id
    }

    pub fn new() -> (r: GuildsService)
        ensures
            r.wf(),
            r@.guilds.len() == 0,
            r@.next_id == 0,
            r@.events.len() == 0,
    {
        GuildsService { guilds: Vec::new(), next_id: 0, events: Vec::new() }
    }

    /// Hands out the events published so far, oldest first, and forgets them.
    pub fn take_events(&mut self) -> (r: Vec<GuildEvent>)
        requires
            old(self).wf(),
        ensures
            final(self).wf(),
            r@.map_values(|e: GuildEvent| e@) == old(self)@.events,
            final(self)@.guilds == old(self)@.guilds,
            final(self)@.events.len() == 0,
    {
        let mut r: Vec<GuildEvent> = Vec::new();
        std::mem::swap(&mut r, &mut self.events);
        assert(self@.guilds =~= old(self)@.guilds);
        r
    }

    fn index_of(&self, id: u64) -> (r: Option<usize>)
        ensures
            r matches Some(i) ==> i < self@.guilds.len() && self@.guilds[i as int].id == id,
            r is None ==> !has_guild(self@.guilds, id),
    {
        let mut i: usize = 0;
        while i < self.guilds.len()
            invariant
                i <= self.guilds@.len(),
                forall|k: int| 0 <= k < i ==> self@.guilds[k].id != id,
            decreases self.guilds@.len() - i,
        {
            if self.guilds[i].id == id {
                return Some(i);
            }
            i += 1;
        }
        None
    }

    /// Stores a guild created by `created_by_user` with the members of the
    /// form that the directory resolves, and publishes `Create`.
    pub fn create_new_guild(&mut self, form: GuildFormDTO, created_by_user: Member, directory: &GitlabService, now: u64) -> (r: Result<Guild, GuildError>)
        requires
            old(self).wf(),
            directory.wf(),
        ensures
            final(self).wf(),
            r is Err <==> old(self)@.next_id == u64::MAX,
            r is Err ==> r == Err::<Guild, GuildError>(GuildError::Persistence) && final(self)@ == old(self)@,
            r matches Ok(g) ==> {
                &&& g.id == old(self)@.next_id
                &&& g.name@ == form.name@
                &&& g.topics_count == 0
                &&& g.created_by_user == created_by_user
                &&& g.updated_at == now && g.created_at == now
                &&& forall|i: int| 0 <= i < g.members@.len() ==> form.member_ids@.contains((#[trigger] g.members@[i]).id)
                &&& resolved_in_order(directory@, form.member_ids@, g.members@)
                &&& final(self)@.guilds == old(self)@.guilds.push(GuildDocumentView {
                    id: g.id,
                    name: form.name@,
                    created_by_user_id: created_by_user.id,
                    member_ids: member_ids_of(g.members@),
                    updated_at: now,
                    created_at: now,
                })
                &&& final(self)@.events == old(self)@.events.push(GuildEventView::Create(g@))
            },
    {
        if self.next_id == u64::MAX {
            return Err(GuildError::Persistence);
        }
        let members = directory.get_cached_members_by_ids(&form.member_ids);
        let member_ids = ids_of_members(&members);
        let id = self.next_id;
        let doc = GuildDocument {
            id,
            name: form.name.clone(),
            created_by_user_id: created_by_user.id,
            member_ids,
            updated_at: now,
            created_at: now,
        };
        let ghost before = self@.guilds;
        self.next_id = self.next_id + 1;
        self.guilds.push(doc);
        assert(self@.guilds =~= before.push(self.guilds@[self.guilds@.len() - 1]@));
        let guild = Guild {
            id,
            name: form.name,
            members,
            topics_count: 0,
            created_by_user,
            updated_at: now,
            created_at: now,
        };
        let ghost ev = self@.events;
        self.events.push(GuildEvent::Create(guild.clone()));
        assert(self@.events =~= ev.push(GuildEventView::Create(guild@)));
        Ok(guild)
    }

    /// The stored guild `guild_id`, if `user_id` may see it.
    pub fn get_guild(&self, user_id: u64, guild_id: u64) -> (r: Option<GuildDocument>)
        requires
            self.wf(),
        ensures
            r is Some <==> has_guild(self@.guilds, guild_id) && can_see(self@.guilds[guild_index(self@.guilds, guild_id)], user_id),
            r matches Some(d) ==> d@ == self@.guilds[guild_index(self@.guilds, guild_id)],
    {
        match self.index_of(guild_id) {
            Some(k) => {
                assert(guild_index(self@.guilds, guild_id) == k as int);
                let d = &self.guilds[k];
                if d.created_by_user_id == user_id || crate::votes::has_voter(&d.member_ids, user_id) {
                    Some(d.clone())
                } else {
                    None
                }
            },
            None => None,
        }
    }

    /// Guild `guild_id` as shown to `user_id`, if they may see it.
    pub fn get_guild_overview(&self, user_id: u64, guild_id: u64, directory: &GitlabService, topics: &crate::topics::TopicsService) -> (r: Result<Option<Guild>, ConsistencyError>)
        requires
            self.wf(),
            directory.wf(),
            topics.wf(),
        ensures
            !(has_guild(self@.guilds, guild_id) && can_see(self@.guilds[guild_index(self@.guilds, guild_id)], user_id))
                ==> r == Ok::<Option<Guild>, ConsistencyError>(None),
            r matches Ok(Some(g)) ==> shows_guild(g, self@.guilds[guild_index(self@.guilds, guild_id)], directory@, topics@.topics),
            has_guild(self@.guilds, guild_id) && can_see(self@.guilds[guild_index(self@.guilds, guild_id)], user_id)
                && !directory@.contains_key(self@.guilds[guild_index(self@.guilds, guild_id)].created_by_user_id) ==> r is Err,
    {
        match self.get_guild(user_id, guild_id) {
            Some(d) => match show_guild(&d, directory, topics) {
                Ok(g) => Ok(Some(g)),
                Err(e) => Err(e),
            },
            None => Ok(None),
        }
    }

    /// The stored guilds that `user_id` may see, newest first; guilds
    /// created at the same time keep their store order.
    pub fn get_guild_documents(&self, user_id: u64) -> (r: Vec<GuildDocument>)
        requires
            self.wf(),
        ensures
            r@.map_values(|d: GuildDocument| d@) == newest_first(visible(self@.guilds, user_id)),
    {
        let ghost gs = self@.guilds;
        let mut r: Vec<GuildDocument> = Vec::new();
        let mut i: usize = 0;
        assert(gs.take(0) =~= Seq::<GuildDocumentView>::empty());
        assert(r@.map_values(|d: GuildDocument| d@) =~= Seq::<GuildDocumentView>::empty());
        while i < self.guilds.len()
            invariant
                gs == self@.guilds,
                i <= gs.len(),
                r@.map_values(|d: GuildDocument| d@) == newest_first(visible(gs.take(i as int), user_id)),
            decreases gs.len() - i,
        {
            assert(gs.take(i as int + 1).drop_last() =~= gs.take(i as int));
            assert(gs.take(i as int + 1).last() == gs[i as int]);
            let d = &self.guilds[i];
            assert(d@ == gs[i as int]);
            if d.created_by_user_id == user_id || crate::votes::has_voter(&d.member_ids, user_id) {
                let ghost before = visible(gs.take(i as int), user_id);
                assert(before.push(d@).drop_last() =~= before);
                let ghost cur = r@.map_values(|x: GuildDocument| x@);
                let mut p: usize = 0;
                while p < r.len() && !(d.created_at > r[p].created_at)
                    invariant
                        p <= r@.len(),
                        cur == r@.map_values(|x: GuildDocument| x@),
                        forall|q: int| 0 <= q < p ==> !(d@.created_at > (#[trigger] cur[q]).created_at),
                    decreases r@.len() - p,
                {
                    assert(cur[p as int] == r@[p as int]@);
                    p += 1;
                }
                proof {
                    if p < r@.len() {
                        assert(cur[p as int] == r@[p as int]@);
                    }
                    lemma_insert_by_created_split(cur, d@, p as int);
                }
                r.insert(p, d.clone());
                assert(r@.map_values(|x: GuildDocument| x@) =~= cur.take(p as int) + seq![d@] + cur.skip(p as int));
            }
            i += 1;
        }
        assert(gs.take(gs.len() as int) =~= gs);
        r
    }

    /// The guilds that `user_id` may see, newest first, as shown: members
    /// and creator resolved through the directory (members that do not
    /// resolve are left out) and topics counted. A creator that does not
    /// resolve fails the whole list.
    pub fn get_guilds(&self, user_id: u64, directory: &GitlabService, topics: &crate::topics::TopicsService) -> (r: Result<Vec<Guild>, ConsistencyError>)
        requires
            self.wf(),
            directory.wf(),
            topics.wf(),
        ensures
            (exists|i: int| 0 <= i < newest_first(visible(self@.guilds, user_id)).len()
                && !directory@.contains_key(#[trigger] newest_first(visible(self@.guilds, user_id))[i].created_by_user_id)) ==> r is Err,
            r matches Ok(v) ==> {
                let docs = newest_first(visible(self@.guilds, user_id));
                &&& v@.len() == docs.len()
                &&& forall|i: int| 0 <= i < v@.len() ==> shows_guild(#[trigger] v@[i], docs[i], directory@, topics@.topics)
            },
    {
        let docs = self.get_guild_documents(user_id);
        let ghost dv = docs@.map_values(|d: GuildDocument| d@);
        let mut v: Vec<Guild> = Vec::new();
        let mut i: usize = 0;
        while i < docs.len()
            invariant
                directory.wf(),
                topics.wf(),
                dv == docs@.map_values(|d: GuildDocument| d@),
                dv == newest_first(visible(self@.guilds, user_id)),
                i <= docs@.len(),
                v@.len() == i,
                forall|q: int| 0 <= q < i ==> shows_guild(#[trigger] v@[q], dv[q], directory@, topics@.topics),
            decreases docs@.len() - i,
        {
            let d = &docs[i];
            assert(d@ == dv[i as int]);
            let shown = match show_guild(d, directory, topics) {
                Ok(g) => g,
                Err(e) => {
                    return Err(e);
                },
            };
            v.push(shown);
            i += 1;
        }
        proof {
            if exists|i: int| 0 <= i < dv.len() && !directory@.contains_key(#[trigger] dv[i].created_by_user_id) {
                let i = choose|i: int| 0 <= i < dv.len() && !directory@.contains_key(#[trigger] dv[i].created_by_user_id);
                assert(shows_guild(v@[i], dv[i], directory@, topics@.topics));
            }
        }
        Ok(v)
    }

    /// Removes guild `guild_id` when `user_id` created it, and publishes
    /// `Delete`.
    pub fn delete_guild(&mut self, user_id: u64, guild_id: u64) -> (r: Result<(), GuildError>)
        requires
            old(self).wf(),
        ensures
            final(self).wf(),
            r is Ok <==> has_guild(old(self)@.guilds, guild_id)
                && old(self)@.guilds[guild_index(old(self)@.guilds, guild_id)].created_by_user_id == user_id,
            r is Err ==> r == Err::<(), GuildError>(GuildError::NotFound) && final(self)@ == old(self)@,
            r is Ok ==> {
                &&& final(self)@.guilds == old(self)@.guilds.remove(guild_index(old(self)@.guilds, guild_id))
                &&& final(self)@.next_id == old(self)@.next_id
                &&& final(self)@.events == old(self)@.events.push(GuildEventView::Delete(guild_id))
            },
    {
        let k = match self.index_of(guild_id) {
            Some(k) => k,
            None => {
                return Err(GuildError::NotFound);
            },
        };
        assert(guild_index(self@.guilds, guild_id) == k as int);
        if self.guilds[k].created_by_user_id != user_id {
            return Err(GuildError::NotFound);
        }
        let ghost gs = self@.guilds;
        self.guilds.remove(k);
        assert(self@.guilds =~= gs.remove(k as int));
        proof {
            let n = self@.guilds;
            assert forall|i: int, j: int| 0 <= i < n.len() && 0 <= j < n.len() && i != j implies n[i].id != n[j].id by {
                let i0 = if i < k { i } else { i + 1 };
                let j0 = if j < k { j } else { j + 1 };
                assert(n[i] == gs[i0] && n[j] == gs[j0]);
            }
            assert forall|i: int| 0 <= i < n.len() implies (#[trigger] n[i]).id < self@.next_id by {
                let i0 = if i < k { i } else { i + 1 };
                assert(n[i] == gs[i0]);
            }
        }
        let ghost ev = self@.events;
        self.events.push(GuildEvent::Delete(guild_id));
        assert(self@.events =~= ev.push(GuildEventView::Delete(guild_id)));
        Ok(())
    }

    /// Renames guild `guild_id` and replaces its members with those of the
    /// form that the directory resolves, when `updated_by_user` created it;
    /// publishes `Update` with the guild as shown.
    pub fn update_guild(&mut self, guild_id: u64, form: GuildFormDTO, updated_by_user: Member, directory: &GitlabService, topics_count: usize, now: u64) -> (r: Result<Guild, GuildError>)
        requires
            old(self).wf(),
            directory.wf(),
        ensures
            final(self).wf(),
            r is Ok <==> has_guild(old(self)@.guilds, guild_id)
                && old(self)@.guilds[guild_index(old(self)@.guilds, guild_id)].created_by_user_id == updated_by_user.id,
            r is Err ==> r == Err::<Guild, GuildError>(GuildError::NotFound) && final(self)@ == old(self)@,
            r matches Ok(g) ==> {
                let k = guild_index(old(self)@.guilds, guild_id);
                &&& g.id == guild_id
                &&& g.name@ == form.name@
                &&& g.topics_count == topics_count
                &&& g.created_by_user == updated_by_user
                &&& g.updated_at == now
                &&& g.created_at == old(self)@.guilds[k].created_at
                &&& forall|i: int| 0 <= i < g.members@.len() ==> form.member_ids@.contains((#[trigger] g.members@[i]).id)
                &&& resolved_in_order(directory@, form.member_ids@, g.members@)
                &&& final(self)@.guilds == old(self)@.guilds.update(k, GuildDocumentView {
                    name: form.name@,
                    member_ids: member_ids_of(g.members@),
                    updated_at: now,
                    ..old(self)@.guilds[k]
                })
                &&& final(self)@.events == old(self)@.events.push(GuildEventView::Update(g@))
            },
    {
        let k = match self.index_of(guild_id) {
            Some(k) => k,
            None => {
                return Err(GuildError::NotFound);
            },
        };
        assert(guild_index(self@.guilds, guild_id) == k as int);
        if self.guilds[k].created_by_user_id != updated_by_user.id {
            return Err(GuildError::NotFound);
        }
        let ghost gs = self@.guilds;
        let members = directory.get_cached_members_by_ids(&form.member_ids);
        let member_ids = ids_of_members(&members);
        self.guilds[k].name = form.name.clone();
        self.guilds[k].member_ids = member_ids;
        self.guilds[k].updated_at = now;
        assert(self@.guilds =~= gs.update(k as int, GuildDocumentView {
            name: form.name@,
            member_ids: member_ids_of(members@),
            updated_at: now,
            ..gs[k as int]
        }));
        let guild = Guild {
            id: guild_id,
            name: form.name,
            members,
            topics_count,
            created_by_user: updated_by_user,
            updated_at: now,
            created_at: self.guilds[k].created_at,
        };
        let ghost ev = self@.events;
        self.events.push(GuildEvent::Update(guild.clone()));
        assert(self@.events =~= ev.push(GuildEventView::Update(guild@)));
        Ok(guild)
    }
}

} // verus!
