use vstd::prelude::*;

use crate::topic::{
    guild_order, ids_of, keys_of, lemma_insert_ranked_split, is_ranked, lemma_ranked_is_ranked,
    lemma_ranked_keeps_ties, outranks, tie_class, rank_key, ranked, RankKey, Topic, TopicStatus, TopicView,
};
use crate::personalize::lemma_lookup_member;
use crate::votes::{
    has_voter, lemma_with_voter, lemma_without, remove_voter, with_voter, without,
};

verus! {

/// A change to a topic aggregate, published to live sessions.
pub enum TopicEvent {
    Create(Topic),
    Update(Topic),
    Delete(Topic),
    StatusChange(Topic),
    /// The full ranked id list of a guild, never a delta.
    OrderChange(u64, Vec<u64>),
}

pub enum TopicEventView {
    Create(TopicView),
    Update(TopicView),
    Delete(TopicView),
    StatusChange(TopicView),
    OrderChange(u64, Seq<u64>),
}

impl View for TopicEvent {
    type V = TopicEventView;

    open spec fn view(&self) -> TopicEventView {
        match self {
            TopicEvent::Create(t) => TopicEventView::Create(t@),
            TopicEvent::Update(t) => TopicEventView::Update(t@),
            TopicEvent::Delete(t) => TopicEventView::Delete(t@),
            TopicEvent::StatusChange(t) => TopicEventView::StatusChange(t@),
            TopicEvent::OrderChange(g, ids) => TopicEventView::OrderChange(*g, ids@),
        }
    }
}

impl Clone for TopicEvent {
    fn clone(&self) -> (r: TopicEvent)
        ensures
            r@ == self@,
    {
        match self {
            TopicEvent::Create(t) => TopicEvent::Create(t.clone()),
            TopicEvent::Update(t) => TopicEvent::Update(t.clone()),
            TopicEvent::Delete(t) => TopicEvent::Delete(t.clone()),
            TopicEvent::StatusChange(t) => TopicEvent::StatusChange(t.clone()),
            TopicEvent::OrderChange(g, ids) => TopicEvent::OrderChange(*g, ids.clone()),
        }
    }
}

/// Why a vote-engine operation did not take place.
#[derive(PartialEq, Eq, Structural, Clone, Copy, Debug)]
pub enum TopicError {
    /// No topic with the given id (in the given guild, where one is given).
    NotFound,
    /// The store cannot take another topic: its ids are used up.
    Persistence,
    /// Votes go to `Created` topics only.
    Archived,
    /// Only the topic's creator or the guild's owner may do this.
    Forbidden,
    /// A person the topic refers to is missing from the directory.
    Consistency(crate::personalize::ConsistencyError),
}

/// The fields a member submits to create or edit a topic.
pub struct TopicFormDTO {
    pub text: String,
    pub will_be_presented_by_the_creator: Option<bool>,
}

/// A window into a ranked list: `limit` entries after the first `skip`.
#[derive(PartialEq, Eq, Structural, Clone, Copy, Debug)]
pub struct PaginationParameters {
    pub limit: usize,
    pub skip: usize,
}

/// What an upvote did: the topic that lost the member's vote, if any, and
/// the voted topic as it now stands.
pub struct VoteTopicResult {
    pub previously_voted: Option<Topic>,
    pub topic: Topic,
}

/// The vote engine: the guilds' topics, their votes, and the events that
/// each change publishes, in publication order.
pub struct TopicsService {
    topics: Vec<Topic>,
    next_id: u64,
    events: Vec<TopicEvent>,
}

pub struct TopicsState {
    pub topics: Seq<TopicView>,
    pub next_id: u64,
    pub events: Seq<TopicEventView>,
}

impl View for TopicsService {
    type V = TopicsState;

    closed spec fn view(&self) -> TopicsState {
        TopicsState {
            topics: self.topics@.map_values(|t: Topic| t@),
            next_id: self.next_id,
            events: self.events@.map_values(|e: TopicEvent| e@),
        }
    }
}

/// Topic `t` holds member `u`'s active vote in guild `g`.
pub open spec fn holds_vote(t: TopicView, g: u64, u: u64) -> bool {
    t.guild_id == g && t.status == TopicStatus::Created && t.upvoted_by_users_ids.contains(u)
}

/// In every guild, every member's vote sits on at most one `Created` topic.
pub open spec fn single_active_vote(ts: Seq<TopicView>) -> bool {
    forall|i: int, j: int, g: u64, u: u64|
        0 <= i < ts.len() && 0 <= j < ts.len() && #[trigger] holds_vote(ts[i], g, u)
            && #[trigger] holds_vote(ts[j], g, u) ==> i == j
}

pub open spec fn topics_wf(ts: Seq<TopicView>, next_id: u64) -> bool {
    &&& forall|i: int, j: int| 0 <= i < ts.len() && 0 <= j < ts.len() && i != j ==> ts[i].id != ts[j].id
    &&& forall|i: int| 0 <= i < ts.len() ==> (#[trigger] ts[i]).id < next_id
    &&& forall|i: int| 0 <= i < ts.len() ==> (#[trigger] ts[i]).upvoted_by_users_ids.no_duplicates()
    &&& forall|i: int| 0 <= i < ts.len() && (#[trigger] ts[i]).status == TopicStatus::Archived
        ==> ts[i].upvoted_by_users_ids.len() == 0
    &&& single_active_vote(ts)
}

/// The index of the topic with id `id`, if there is one.
pub open spec fn has_topic(ts: Seq<TopicView>, id: u64, i: int) -> bool {
    0 <= i < ts.len() && ts[i].id == id
}

/// Some topic of the store has id `id`.
pub open spec fn names_topic(ts: Seq<TopicView>, id: u64) -> bool {
    exists|k: int| has_topic(ts, id, k)
}

/// `t` with `u`'s vote taken back, where `t` is a `Created` topic of guild `g`.
pub open spec fn strip_vote(t: TopicView, g: u64, u: u64) -> TopicView {
    if t.guild_id == g && t.status == TopicStatus::Created {
        TopicView { upvoted_by_users_ids: without(t.upvoted_by_users_ids, u), ..t }
    } else {
        t
    }
}

pub open spec fn strip_votes(ts: Seq<TopicView>, g: u64, u: u64) -> Seq<TopicView> {
    Seq::new(ts.len(), |i: int| strip_vote(ts[i], g, u))
}

/// The first topic, in store order, that holds `u`'s vote in guild `g`.
pub open spec fn first_vote(ts: Seq<TopicView>, g: u64, u: u64) -> Option<int> {
    if exists|i: int| 0 <= i < ts.len() && holds_vote(ts[i], g, u) {
        Some(choose|i: int| 0 <= i < ts.len() && holds_vote(ts[i], g, u))
    } else {
        None
    }
}

proof fn lemma_strip_wf(ts: Seq<TopicView>, next_id: u64, g: u64, u: u64)
    requires
        topics_wf(ts, next_id),
    ensures
        topics_wf(strip_votes(ts, g, u), next_id),
        forall|i: int| 0 <= i < ts.len() ==> !holds_vote(#[trigger] strip_votes(ts, g, u)[i], g, u),
        forall|i: int, g2: u64, u2: u64| 0 <= i < ts.len() && #[trigger] holds_vote(strip_votes(ts, g, u)[i], g2, u2)
            ==> holds_vote(ts[i], g2, u2),
{
    let s = strip_votes(ts, g, u);
    assert forall|i: int| 0 <= i < ts.len() implies {
        &&& (#[trigger] s[i]).upvoted_by_users_ids.no_duplicates()
        &&& !holds_vote(s[i], g, u)
        &&& forall|g2: u64, u2: u64| #[trigger] holds_vote(s[i], g2, u2) ==> holds_vote(ts[i], g2, u2)
    } by {
        lemma_without(ts[i].upvoted_by_users_ids, u);
    }
    assert forall|i: int, j: int, g2: u64, u2: u64|
        0 <= i < s.len() && 0 <= j < s.len() && #[trigger] holds_vote(s[i], g2, u2)
            && #[trigger] holds_vote(s[j], g2, u2) implies i == j by {
        assert(holds_vote(ts[i], g2, u2) && holds_vote(ts[j], g2, u2));
    }
}

impl TopicsService {
    pub closed spec fn wf(&self) -> bool {
        &&& topics_wf(self@.topics, self@.next_id)
        &&& self.topics@.len() == self@.topics.len()
    }

    /// An empty engine.
    pub fn new() -> (r: TopicsService)
        ensures
            r.wf(),
            r@.topics == Seq::<TopicView>::empty(),
            r@.next_id == 0,
            r@.events == Seq::<TopicEventView>::empty(),
    {
        let r = TopicsService { topics: Vec::new(), next_id: 0, events: Vec::new() };
        assert(r@.topics =~= Seq::<TopicView>::empty());
        assert(r@.events =~= Seq::<TopicEventView>::empty());
        r
    }

    /// Hands out the events published so far, oldest first, and forgets them.
    pub fn take_events(&mut self) -> (r: Vec<TopicEvent>)
        requires
            old(self).wf(),
        ensures
            final(self).wf(),
            r@.map_values(|e: TopicEvent| e@) == old(self)@.events,
            final(self)@.topics == old(self)@.topics,
            final(self)@.events == Seq::<TopicEventView>::empty(),
    {
        let mut r: Vec<TopicEvent> = Vec::new();
        std::mem::swap(&mut r, &mut self.events);
        assert(self@.events =~= Seq::<TopicEventView>::empty());
        r
    }

    fn index_of(&self, id: u64) -> (r: Option<usize>)
        requires
            self.wf(),
        ensures
            r matches Some(i) ==> has_topic(self@.topics, id, i as int),
            r is None ==> forall|i: int| !has_topic(self@.topics, id, i),
    {
        let mut i: usize = 0;
        while i < self.topics.len()
            invariant
                self.wf(),
                i <= self.topics@.len(),
                forall|k: int| 0 <= k < i ==> self@.topics[k].id != id,
            decreases self.topics@.len() - i,
        {
            if self.topics[i].id == id {
                return Some(i);
            }
            i += 1;
        }
        None
    }

    fn index_of_vote(&self, guild_id: u64, user_id: u64) -> (r: Option<usize>)
        requires
            self.wf(),
        ensures
            r matches Some(i) ==> i < self@.topics.len() && holds_vote(self@.topics[i as int], guild_id, user_id),
            r is None ==> first_vote(self@.topics, guild_id, user_id) is None,
    {
        let mut i: usize = 0;
        while i < self.topics.len()
            invariant
                self.wf(),
                i <= self.topics@.len(),
                forall|k: int| 0 <= k < i ==> !holds_vote(self@.topics[k], guild_id, user_id),
            decreases self.topics@.len() - i,
        {
            let t = &self.topics[i];
            if t.guild_id == guild_id && t.status == TopicStatus::Created && has_voter(
                &t.upvoted_by_users_ids,
                user_id,
            ) {
                return Some(i);
            }
            i += 1;
        }
        None
    }

    /// Takes `user_id`'s vote back from every `Created` topic of the guild.
    fn remove_user_vote_by_guild_id(&mut self, guild_id: u64, user_id: u64)
        requires
            old(self).wf(),
        ensures
            final(self).wf(),
            final(self)@.topics == strip_votes(old(self)@.topics, guild_id, user_id),
            final(self)@.next_id == old(self)@.next_id,
            final(self)@.events == old(self)@.events,
    {
        let ghost old_ts = self@.topics;
        proof {
            lemma_strip_wf(old_ts, self.next_id, guild_id, user_id);
        }
        let mut i: usize = 0;
        while i < self.topics.len()
            invariant
                i <= self.topics@.len(),
                self.topics@.len() == old_ts.len(),
                self@.next_id == old(self)@.next_id,
                self@.events == old(self)@.events,
                forall|k: int| 0 <= k < i ==> self.topics@[k]@ == strip_vote(old_ts[k], guild_id, user_id),
                forall|k: int| i <= k < old_ts.len() ==> self.topics@[k]@ == old_ts[k],
            decreases self.topics@.len() - i,
        {
            if self.topics[i].guild_id == guild_id && self.topics[i].status == TopicStatus::Created {
                let kept = remove_voter(&self.topics[i].upvoted_by_users_ids, user_id);
                self.topics[i].upvoted_by_users_ids = kept;
            }
            assert(self.topics@[i as int]@ == strip_vote(old_ts[i as int], guild_id, user_id));
            i += 1;
        }
        assert(self@.topics =~= strip_votes(old_ts, guild_id, user_id));
    }
}


fn outranks_exec(a: &RankKey, b: &RankKey) -> (r: bool)
    ensures
        r == outranks(*a, *b),
{
    a.votes > b.votes || (a.votes == b.votes && a.updated_at > b.updated_at)
}

/// The ids of `keys`, in order.
fn ids_in(keys: &Vec<RankKey>) -> (r: Vec<u64>)
    ensures
        r@ == ids_of(keys@),
{
    let mut r: Vec<u64> = Vec::new();
    let mut i: usize = 0;
    while i < keys.len()
        invariant
            i <= keys@.len(),
            r@.len() == i,
            forall|j: int| 0 <= j < i ==> r@[j] == keys@[j].id,
        decreases keys@.len() - i,
    {
        r.push(keys[i].id);
        i += 1;
    }
    assert(r@ =~= ids_of(keys@));
    r
}

impl TopicsService {
    /// The rank keys of the guild's topics in status `status`, ranked.
    fn ranked_keys(&self, guild_id: u64, status: TopicStatus) -> (r: Vec<RankKey>)
        requires
            self.wf(),
        ensures
            r@ == ranked(keys_of(self@.topics, guild_id, status)),
    {
        let ghost ts = self@.topics;
        let mut r: Vec<RankKey> = Vec::new();
        let mut i: usize = 0;
        assert(ts.take(0) =~= Seq::<TopicView>::empty());
        while i < self.topics.len()
            invariant
                self.wf(),
                ts == self@.topics,
                i <= ts.len(),
                r@ == ranked(keys_of(ts.take(i as int), guild_id, status)),
            decreases ts.len() - i,
        {
            let t = &self.topics[i];
            assert(t@ == ts[i as int]);
            assert(ts.take(i as int + 1).drop_last() =~= ts.take(i as int));
            assert(ts.take(i as int + 1).last() == ts[i as int]);
            if t.guild_id == guild_id && t.status == status {
                let k = RankKey { id: t.id, votes: t.upvoted_by_users_ids.len(), updated_at: t.updated_at };
                assert(k == rank_key(ts[i as int]));
                let ghost before = keys_of(ts.take(i as int), guild_id, status);
                assert(before.push(k).drop_last() =~= before);
                let mut p: usize = 0;
                while p < r.len() && !outranks_exec(&k, &r[p])
                    invariant
                        p <= r@.len(),
                        forall|q: int| 0 <= q < p ==> !outranks(k, #[trigger] r@[q]),
                    decreases r@.len() - p,
                {
                    p += 1;
                }
                proof {
                    lemma_insert_ranked_split(r@, k, p as int);
                }
                let ghost old_r = r@;
                r.insert(p, k);
                assert(r@ =~= old_r.take(p as int) + seq![k] + old_r.skip(p as int));
            }
            i += 1;
        }
        assert(ts.take(ts.len() as int) =~= ts);
        r
    }

    /// The authoritative order of the guild: its `Created` topics by votes,
    /// then by last update, both descending; ties keep store order.
    pub fn get_topic_ids_sorted(&self, guild_id: u64) -> (r: Vec<u64>)
        requires
            self.wf(),
        ensures
            r@ == guild_order(self@.topics, guild_id),
            r@.no_duplicates(),
    {
        proof {
            let keys = keys_of(self@.topics, guild_id, TopicStatus::Created);
            crate::topic::lemma_keys_distinct(self@.topics, guild_id, TopicStatus::Created);
            crate::topic::lemma_ranked_distinct(keys);
            crate::topic::lemma_ids_of_distinct(ranked(keys));
        }
        let keys = self.ranked_keys(guild_id, TopicStatus::Created);
        ids_in(&keys)
    }
}


/// `t` with `u`'s vote added.
pub open spec fn voted_topic(t: TopicView, u: u64) -> TopicView {
    TopicView { upvoted_by_users_ids: with_voter(t.upvoted_by_users_ids, u), ..t }
}

/// The store after `u` votes for the topic at `k` in guild `g`: the vote is
/// taken back from every `Created` topic of the guild, then added at `k`.
pub open spec fn after_upvote(ts: Seq<TopicView>, g: u64, u: u64, k: int) -> Seq<TopicView> {
    strip_votes(ts, g, u).update(k, voted_topic(strip_votes(ts, g, u)[k], u))
}

/// The position of the topic `id` in the store.
pub open spec fn index_of_id(ts: Seq<TopicView>, id: u64) -> int {
    choose|k: int| has_topic(ts, id, k)
}

/// The topic `id` is in the store and belongs to guild `g`.
pub open spec fn in_guild(ts: Seq<TopicView>, g: u64, id: u64) -> bool {
    exists|k: int| has_topic(ts, id, k) && ts[k].guild_id == g
}

/// The `Update` event published for the topic that loses `u`'s vote in
/// guild `g`, if one holds it.
pub open spec fn vote_loss_events(ts: Seq<TopicView>, g: u64, u: u64) -> Seq<TopicEventView> {
    match first_vote(ts, g, u) {
        Some(j) => seq![TopicEventView::Update(ts[j])],
        None => seq![],
    }
}

proof fn lemma_add_vote_wf(ts: Seq<TopicView>, next_id: u64, g: u64, u: u64, k: int)
    requires
        topics_wf(ts, next_id),
        0 <= k < ts.len(),
        ts[k].guild_id == g,
        ts[k].status == TopicStatus::Created,
        forall|i: int| 0 <= i < ts.len() ==> !holds_vote(#[trigger] ts[i], g, u),
    ensures
        topics_wf(ts.update(k, voted_topic(ts[k], u)), next_id),
        forall|j: int| 0 <= j < ts.len() ==> (#[trigger] holds_vote(ts.update(k, voted_topic(ts[k], u))[j], g, u)
            <==> (j == k && ts[k].status == TopicStatus::Created)),
{
    let n = ts.update(k, voted_topic(ts[k], u));
    lemma_with_voter(ts[k].upvoted_by_users_ids, u);
    assert forall|j: int, g2: u64, u2: u64| 0 <= j < n.len() && #[trigger] holds_vote(n[j], g2, u2)
        && !(g2 == g && u2 == u) implies holds_vote(ts[j], g2, u2) by {
        if j == k {
            assert(n[j].upvoted_by_users_ids.contains(u2));
            if u2 != u {
                assert(ts[k].upvoted_by_users_ids.contains(u2));
            }
        }
    }
    assert forall|i: int, j: int, g2: u64, u2: u64|
        0 <= i < n.len() && 0 <= j < n.len() && #[trigger] holds_vote(n[i], g2, u2)
            && #[trigger] holds_vote(n[j], g2, u2) implies i == j by {
        if g2 == g && u2 == u {
            if i != k {
                assert(holds_vote(ts[i], g, u));
            }
            if j != k {
                assert(holds_vote(ts[j], g, u));
            }
        } else {
            assert(holds_vote(ts[i], g2, u2) && holds_vote(ts[j], g2, u2));
        }
    }
    assert forall|j: int| 0 <= j < ts.len() implies (#[trigger] holds_vote(n[j], g, u)
        <==> (j == k && ts[k].status == TopicStatus::Created)) by {
        if j != k {
            assert(!holds_vote(ts[j], g, u));
        }
    }
    assert forall|i: int| 0 <= i < n.len() implies (#[trigger] n[i]).upvoted_by_users_ids.no_duplicates() by {
        if i != k {
            assert(n[i] == ts[i]);
        }
    }
    assert forall|i: int| 0 <= i < n.len() && (#[trigger] n[i]).status == TopicStatus::Archived
        implies n[i].upvoted_by_users_ids.len() == 0 by {
        assert(i != k);
        assert(n[i] == ts[i]);
    }
    assert forall|i: int| 0 <= i < n.len() implies (#[trigger] n[i]).id < next_id by {
        assert(n[i].id == ts[i].id);
    }
    assert forall|i: int, j: int| 0 <= i < n.len() && 0 <= j < n.len() && i != j implies n[i].id != n[j].id by {
        assert(n[i].id == ts[i].id && n[j].id == ts[j].id);
    }
}

impl TopicsService {
    /// Member `user_id` votes for topic `id` of guild `guild_id`.
    ///
    /// Any vote of theirs on a `Created` topic of the guild is taken back first
    /// (that topic's `Update` event is published even if it is the voted one),
    /// whatever the target turns out to be. Then the vote is added, and
    /// `Update` of the voted topic and the guild's new order follow.
    ///
    /// A target that does not exist fails with `NotFound` after the vote was
    /// taken back. By design, a target of another guild also fails with
    /// `NotFound`, and an `Archived` target with `Archived`, both after the
    /// vote was taken back and without adding it: a vote in the wrong guild
    /// would give the member two active votes there, and an archived topic
    /// holds no votes.
    pub fn upvote_topic(&mut self, guild_id: u64, id: u64, user_id: u64) -> (r: Result<VoteTopicResult, TopicError>)
        requires
            old(self).wf(),
        ensures
            final(self).wf(),
            r is Ok <==> in_guild(old(self)@.topics, guild_id, id)
                && old(self)@.topics[index_of_id(old(self)@.topics, id)].status == TopicStatus::Created,
            r == Err::<VoteTopicResult, TopicError>(TopicError::NotFound) <==> !in_guild(old(self)@.topics, guild_id, id),
            r == Err::<VoteTopicResult, TopicError>(TopicError::Archived) <==> in_guild(old(self)@.topics, guild_id, id)
                && old(self)@.topics[index_of_id(old(self)@.topics, id)].status == TopicStatus::Archived,
            r is Err ==> {
                &&& final(self)@.topics == strip_votes(old(self)@.topics, guild_id, user_id)
                &&& final(self)@.next_id == old(self)@.next_id
                &&& final(self)@.events == old(self)@.events + vote_loss_events(old(self)@.topics, guild_id, user_id)
            },
            r matches Ok(v) ==> {
                let ts = old(self)@.topics;
                let after = after_upvote(ts, guild_id, user_id, index_of_id(ts, id));
                &&& final(self)@.topics == after
                &&& final(self)@.next_id == old(self)@.next_id
                &&& v.topic@ == after[index_of_id(ts, id)]
                &&& match first_vote(ts, guild_id, user_id) {
                    Some(j) => v.previously_voted matches Some(p) && p@ == ts[j],
                    None => v.previously_voted is None,
                }
                &&& final(self)@.events == old(self)@.events + vote_loss_events(ts, guild_id, user_id)
                    + seq![TopicEventView::Update(v.topic@),
                    TopicEventView::OrderChange(guild_id, guild_order(after, guild_id))]
                &&& forall|j: int| 0 <= j < after.len() ==> (#[trigger] holds_vote(after[j], guild_id, user_id)
                    <==> (after[j].id == id && after[j].status == TopicStatus::Created))
            },
    {
        let ghost ts = self@.topics;
        let ghost old_events = self@.events;
        let found = self.index_of(id);
        let previously_voted = match self.index_of_vote(guild_id, user_id) {
            Some(j) => {
                proof {
                    let c = choose|i: int| 0 <= i < ts.len() && holds_vote(ts[i], guild_id, user_id);
                    assert(holds_vote(ts[c], guild_id, user_id));
                    assert(c == j as int);
                    assert(first_vote(ts, guild_id, user_id) == Some(j as int));
                }
                let p = self.topics[j].clone();
                self.events.push(TopicEvent::Update(p.clone()));
                Some(p)
            },
            None => None,
        };
        assert(self@.events =~= old_events + vote_loss_events(ts, guild_id, user_id));
        assert(self.wf());
        self.remove_user_vote_by_guild_id(guild_id, user_id);
        let ghost stripped = self@.topics;
        let k = match found {
            Some(k) => k,
            None => {
                return Err(TopicError::NotFound);
            },
        };
        if self.topics[k].guild_id != guild_id {
            proof {
                assert forall|j: int| has_topic(ts, id, j) implies ts[j].guild_id != guild_id by {
                    assert(j == k as int);
                }
            }
            return Err(TopicError::NotFound);
        }
        assert(index_of_id(ts, id) == k as int) by {
            assert(has_topic(ts, id, k as int));
        }
        if self.topics[k].status != TopicStatus::Created {
            return Err(TopicError::Archived);
        }
        proof {
            lemma_strip_wf(ts, self.next_id, guild_id, user_id);
            lemma_add_vote_wf(stripped, self.next_id, guild_id, user_id, k as int);
        }
        if !has_voter(&self.topics[k].upvoted_by_users_ids, user_id) {
            let mut voters = self.topics[k].upvoted_by_users_ids.clone();
            voters.push(user_id);
            self.topics[k].upvoted_by_users_ids = voters;
        }
        assert(self.topics@[k as int]@ == voted_topic(stripped[k as int], user_id));
        assert(self@.topics =~= after_upvote(ts, guild_id, user_id, k as int));
        let topic = self.topics[k].clone();
        let order = self.get_topic_ids_sorted(guild_id);
        self.events.push(TopicEvent::Update(topic.clone()));
        self.events.push(TopicEvent::OrderChange(guild_id, order));
        let ghost after = self@.topics;
        assert forall|j: int| 0 <= j < after.len() implies (#[trigger] holds_vote(after[j], guild_id, user_id)
            <==> (after[j].id == id && after[j].status == TopicStatus::Created)) by {
            assert(after[j].id == ts[j].id);
            if after[j].id == id {
                assert(j == k as int);
            }
        }
        Ok(VoteTopicResult { previously_voted, topic })
    }

    /// Member `user_id` takes back their vote in guild `guild_id`, wherever it
    /// sits; `Update` of topic `id` and the guild's order are published even
    /// where there was no vote to take back.
    pub fn remove_vote_from_topic(&mut self, guild_id: u64, id: u64, user_id: u64) -> (r: Result<Topic, TopicError>)
        requires
            old(self).wf(),
        ensures
            final(self).wf(),
            r is Ok <==> in_guild(old(self)@.topics, guild_id, id),
            r is Err ==> r == Err::<Topic, TopicError>(TopicError::NotFound) && final(self)@ == old(self)@,
            r matches Ok(t) ==> {
                let after = strip_votes(old(self)@.topics, guild_id, user_id);
                &&& final(self)@.topics == after
                &&& final(self)@.next_id == old(self)@.next_id
                &&& t@ == after[index_of_id(old(self)@.topics, id)]
                &&& final(self)@.events == old(self)@.events + seq![TopicEventView::Update(t@),
                    TopicEventView::OrderChange(guild_id, guild_order(after, guild_id))]
                &&& forall|j: int| 0 <= j < after.len() ==> !(#[trigger] holds_vote(after[j], guild_id, user_id))
                &&& !t@.upvoted_by_users_ids.contains(user_id)
            },
    {
        let ghost ts = self@.topics;
        let k = match self.index_of(id) {
            Some(k) => k,
            None => {
                return Err(TopicError::NotFound);
            },
        };
        if self.topics[k].guild_id != guild_id {
            proof {
                assert forall|j: int| has_topic(ts, id, j) implies ts[j].guild_id != guild_id by {
                    assert(j == k as int);
                }
            }
            return Err(TopicError::NotFound);
        }
        assert(index_of_id(ts, id) == k as int) by {
            assert(has_topic(ts, id, k as int));
        }
        proof {
            lemma_strip_wf(ts, self.next_id, guild_id, user_id);
        }
        self.remove_user_vote_by_guild_id(guild_id, user_id);
        proof {
            lemma_without(ts[k as int].upvoted_by_users_ids, user_id);
            if ts[k as int].status == TopicStatus::Archived {
                assert(ts[k as int].upvoted_by_users_ids.len() == 0);
                assert(!ts[k as int].upvoted_by_users_ids.contains(user_id));
            }
            assert(self@.topics[k as int] == strip_vote(ts[k as int], guild_id, user_id));
        }
        let topic = self.topics[k].clone();
        let order = self.get_topic_ids_sorted(guild_id);
        self.events.push(TopicEvent::Update(topic.clone()));
        self.events.push(TopicEvent::OrderChange(guild_id, order));
        Ok(topic)
    }
}


/// Member `u` may edit `t` or change its status: they created it, or they
/// own its guild.
pub open spec fn may_change(t: TopicView, u: u64, owner: u64) -> bool {
    t.created_by_user_id == u || owner == u
}

/// `t` after an edit or a status change: its votes are void.
pub open spec fn cleared(t: TopicView) -> TopicView {
    TopicView { upvoted_by_users_ids: seq![], ..t }
}

/// What a form sets the presenter flag to: only an explicit yes sets it.
pub open spec fn presenter_flag(f: Option<bool>) -> bool {
    f == Some(true)
}

/// The topic that `create_topic` stores.
pub open spec fn new_topic(id: u64, guild_id: u64, text: Seq<char>, presenter: bool, user_id: u64, now: u64) -> TopicView {
    TopicView {
        id,
        guild_id,
        text,
        status: TopicStatus::Created,
        will_be_presented_by_the_creator: presenter,
        created_by_user_id: user_id,
        upvoted_by_users_ids: seq![],
        updated_at: now,
        created_at: now,
    }
}

/// The events a status change publishes: the change, and the new order when
/// the topic joins the ranked set again.
pub open spec fn status_events(t: TopicView, order: Seq<u64>) -> Seq<TopicEventView> {
    if t.status == TopicStatus::Created {
        seq![TopicEventView::StatusChange(t), TopicEventView::OrderChange(t.guild_id, order)]
    } else {
        seq![TopicEventView::StatusChange(t)]
    }
}

proof fn lemma_replace_cleared_wf(ts: Seq<TopicView>, next_id: u64, k: int, t: TopicView)
    requires
        topics_wf(ts, next_id),
        0 <= k < ts.len(),
        t.id == ts[k].id,
        t.upvoted_by_users_ids == Seq::<u64>::empty(),
    ensures
        topics_wf(ts.update(k, t), next_id),
{
    let n = ts.update(k, t);
    assert(t.upvoted_by_users_ids.no_duplicates());
    assert forall|i: int, j: int, g2: u64, u2: u64|
        0 <= i < n.len() && 0 <= j < n.len() && #[trigger] holds_vote(n[i], g2, u2)
            && #[trigger] holds_vote(n[j], g2, u2) implies i == j by {
        assert(i != k && j != k);
        assert(holds_vote(ts[i], g2, u2) && holds_vote(ts[j], g2, u2));
    }
    assert forall|i: int| 0 <= i < n.len() implies (#[trigger] n[i]).upvoted_by_users_ids.no_duplicates() by {
        if i != k {
            assert(n[i] == ts[i]);
        }
    }
    assert forall|i: int| 0 <= i < n.len() implies (#[trigger] n[i]).id < next_id by {
        assert(n[i].id == ts[i].id);
    }
    assert forall|i: int, j: int| 0 <= i < n.len() && 0 <= j < n.len() && i != j implies n[i].id != n[j].id by {
        assert(n[i].id == ts[i].id && n[j].id == ts[j].id);
    }
}

fn presenter_of(f: Option<bool>) -> (r: bool)
    ensures
        r == presenter_flag(f),
{
    match f {
        Some(b) => b,
        None => false,
    }
}

impl TopicsService {
    /// The topic `id`, if the store holds it.
    pub fn get_topic(&self, id: u64) -> (r: Option<Topic>)
        requires
            self.wf(),
        ensures
            r is Some <==> exists|k: int| has_topic(self@.topics, id, k),
            r matches Some(t) ==> t@ == self@.topics[index_of_id(self@.topics, id)],
    {
        match self.index_of(id) {
            Some(k) => {
                assert(index_of_id(self@.topics, id) == k as int) by {
                    assert(has_topic(self@.topics, id, k as int));
                }
                Some(self.topics[k].clone())
            },
            None => None,
        }
    }

    /// Stores a new `Created` topic of member `user_id` in guild `guild_id`,
    /// with no votes, and publishes `Create` and the guild's new order.
    pub fn create_topic(&mut self, form: TopicFormDTO, guild_id: u64, user_id: u64, now: u64) -> (r: Result<Topic, TopicError>)
        requires
            old(self).wf(),
        ensures
            final(self).wf(),
            r is Err <==> old(self)@.next_id == u64::MAX,
            r is Err ==> r == Err::<Topic, TopicError>(TopicError::Persistence) && final(self)@ == old(self)@,
            r matches Ok(t) ==> {
                let after = old(self)@.topics.push(t@);
                &&& t@ == new_topic(old(self)@.next_id, guild_id, form.text@,
                    presenter_flag(form.will_be_presented_by_the_creator), user_id, now)
                &&& final(self)@.topics == after
                &&& final(self)@.next_id == old(self)@.next_id + 1
                &&& final(self)@.events == old(self)@.events + seq![TopicEventView::Create(t@),
                    TopicEventView::OrderChange(guild_id, guild_order(after, guild_id))]
            },
    {
        if self.next_id == u64::MAX {
            return Err(TopicError::Persistence);
        }
        let ghost ts = self@.topics;
        let topic = Topic {
            id: self.next_id,
            guild_id,
            text: form.text,
            status: TopicStatus::Created,
            will_be_presented_by_the_creator: presenter_of(form.will_be_presented_by_the_creator),
            created_by_user_id: user_id,
            upvoted_by_users_ids: Vec::new(),
            updated_at: now,
            created_at: now,
        };
        assert(topic@.upvoted_by_users_ids =~= Seq::<u64>::empty());
        self.next_id = self.next_id + 1;
        self.topics.push(topic.clone());
        proof {
            let n = self@.topics;
            assert(n =~= ts.push(topic@));
            assert(topic@.upvoted_by_users_ids.no_duplicates());
            assert forall|i: int, j: int, g2: u64, u2: u64|
                0 <= i < n.len() && 0 <= j < n.len() && #[trigger] holds_vote(n[i], g2, u2)
                    && #[trigger] holds_vote(n[j], g2, u2) implies i == j by {
                assert(i < ts.len() && j < ts.len());
                assert(holds_vote(ts[i], g2, u2) && holds_vote(ts[j], g2, u2));
            }
            assert forall|i: int| 0 <= i < n.len() implies (#[trigger] n[i]).upvoted_by_users_ids.no_duplicates() by {
                if i < ts.len() {
                    assert(n[i] == ts[i]);
                }
            }
        }
        let order = self.get_topic_ids_sorted(guild_id);
        self.events.push(TopicEvent::Create(topic.clone()));
        self.events.push(TopicEvent::OrderChange(guild_id, order));
        Ok(topic)
    }

    /// Replaces the text and presenter flag of topic `id`, for its creator or
    /// the owner of its guild; its votes are void. Publishes `Update` and the
    /// new order of its guild.
    pub fn update_topic(&mut self, form: TopicFormDTO, id: u64, user_id: u64, guild_owner_id: u64, now: u64) -> (r: Result<Topic, TopicError>)
        requires
            old(self).wf(),
        ensures
            final(self).wf(),
            r is Ok <==> (exists|k: int| has_topic(old(self)@.topics, id, k))
                && may_change(old(self)@.topics[index_of_id(old(self)@.topics, id)], user_id, guild_owner_id),
            r is Err ==> final(self)@ == old(self)@,
            r == Err::<Topic, TopicError>(TopicError::NotFound) <==> !exists|k: int| has_topic(old(self)@.topics, id, k),
            r == Err::<Topic, TopicError>(TopicError::Forbidden) <==> (exists|k: int| has_topic(old(self)@.topics, id, k))
                && !may_change(old(self)@.topics[index_of_id(old(self)@.topics, id)], user_id, guild_owner_id),
            r matches Ok(t) ==> {
                let ts = old(self)@.topics;
                let k = index_of_id(ts, id);
                let after = ts.update(k, t@);
                &&& t@ == cleared(TopicView {
                    text: form.text@,
                    will_be_presented_by_the_creator: presenter_flag(form.will_be_presented_by_the_creator),
                    updated_at: now,
                    ..ts[k]
                })
                &&& final(self)@.topics == after
                &&& final(self)@.next_id == old(self)@.next_id
                &&& final(self)@.events == old(self)@.events + seq![TopicEventView::Update(t@),
                    TopicEventView::OrderChange(t@.guild_id, guild_order(after, t@.guild_id))]
            },
    {
        let ghost ts = self@.topics;
        let k = match self.index_of(id) {
            Some(k) => k,
            None => {
                return Err(TopicError::NotFound);
            },
        };
        assert(index_of_id(ts, id) == k as int) by {
            assert(has_topic(ts, id, k as int));
        }
        if self.topics[k].created_by_user_id != user_id && guild_owner_id != user_id {
            return Err(TopicError::Forbidden);
        }
        let presenter = presenter_of(form.will_be_presented_by_the_creator);
        self.topics[k].text = form.text;
        self.topics[k].will_be_presented_by_the_creator = presenter;
        self.topics[k].updated_at = now;
        self.topics[k].upvoted_by_users_ids = Vec::new();
        let topic = self.topics[k].clone();
        proof {
            assert(topic@.upvoted_by_users_ids =~= Seq::<u64>::empty());
            lemma_replace_cleared_wf(ts, self.next_id, k as int, topic@);
            assert(self@.topics =~= ts.update(k as int, topic@));
        }
        let order = self.get_topic_ids_sorted(topic.guild_id);
        self.events.push(TopicEvent::Update(topic.clone()));
        self.events.push(TopicEvent::OrderChange(topic.guild_id, order));
        Ok(topic)
    }

    /// Moves topic `id` to `new_status`, for its creator or the owner of its
    /// guild. A move in either direction voids its
    /// votes and publishes `StatusChange`, and the guild's order when the
    /// topic becomes `Created`; asking for the status it has changes nothing.
    pub fn change_topic_status(&mut self, id: u64, user_id: u64, guild_owner_id: u64, new_status: TopicStatus, now: u64) -> (r: Result<Topic, TopicError>)
        requires
            old(self).wf(),
        ensures
            final(self).wf(),
            r is Ok <==> (exists|k: int| has_topic(old(self)@.topics, id, k))
                && may_change(old(self)@.topics[index_of_id(old(self)@.topics, id)], user_id, guild_owner_id),
            r is Err ==> final(self)@ == old(self)@,
            r == Err::<Topic, TopicError>(TopicError::NotFound) <==> !exists|k: int| has_topic(old(self)@.topics, id, k),
            r == Err::<Topic, TopicError>(TopicError::Forbidden) <==> (exists|k: int| has_topic(old(self)@.topics, id, k))
                && !may_change(old(self)@.topics[index_of_id(old(self)@.topics, id)], user_id, guild_owner_id),
            r matches Ok(t) ==> {
                let ts = old(self)@.topics;
                let k = index_of_id(ts, id);
                if ts[k].status == new_status {
                    &&& t@ == ts[k]
                    &&& final(self)@ == old(self)@
                } else {
                    let after = ts.update(k, t@);
                    &&& t@ == cleared(TopicView { status: new_status, updated_at: now, ..ts[k] })
                    &&& final(self)@.topics == after
                    &&& final(self)@.next_id == old(self)@.next_id
                    &&& final(self)@.events == old(self)@.events + status_events(t@, guild_order(after, t@.guild_id))
                }
            },
    {
        let ghost ts = self@.topics;
        let k = match self.index_of(id) {
            Some(k) => k,
            None => {
                return Err(TopicError::NotFound);
            },
        };
        assert(index_of_id(ts, id) == k as int) by {
            assert(has_topic(ts, id, k as int));
        }
        if self.topics[k].created_by_user_id != user_id && guild_owner_id != user_id {
            return Err(TopicError::Forbidden);
        }
        if self.topics[k].status == new_status {
            return Ok(self.topics[k].clone());
        }
        self.topics[k].status = new_status;
        self.topics[k].updated_at = now;
        self.topics[k].upvoted_by_users_ids = Vec::new();
        let topic = self.topics[k].clone();
        proof {
            assert(topic@.upvoted_by_users_ids =~= Seq::<u64>::empty());
            lemma_replace_cleared_wf(ts, self.next_id, k as int, topic@);
            assert(self@.topics =~= ts.update(k as int, topic@));
        }
        let ghost old_events = self@.events;
        self.events.push(TopicEvent::StatusChange(topic.clone()));
        if new_status == TopicStatus::Created {
            let order = self.get_topic_ids_sorted(topic.guild_id);
            self.events.push(TopicEvent::OrderChange(topic.guild_id, order));
        }
        assert(self@.events =~= old_events + status_events(topic@, guild_order(self@.topics, topic@.guild_id)));
        Ok(topic)
    }

    /// Removes topic `id` for its creator or the owner of its guild, and
    /// publishes `Delete` with the topic as it stood. Anyone else is refused,
    /// with nothing removed and nothing published.
    pub fn delete_topic(&mut self, id: u64, user_id: u64, guild_owner_id: u64, directory: &crate::directory::GitlabService) -> (r: Result<Topic, TopicError>)
        requires
            old(self).wf(),
            directory.wf(),
        ensures
            final(self).wf(),
            r is Err ==> final(self)@ == old(self)@,
            r == Err::<Topic, TopicError>(TopicError::NotFound) <==> !exists|k: int| has_topic(old(self)@.topics, id, k),
            r == Err::<Topic, TopicError>(TopicError::Forbidden) ==> (exists|k: int| has_topic(old(self)@.topics, id, k))
                && old(self)@.topics[index_of_id(old(self)@.topics, id)].created_by_user_id != user_id
                && guild_owner_id != user_id,
            (exists|k: int| has_topic(old(self)@.topics, id, k)) && (exists|x: u64|
                #[trigger] refers_to(old(self)@.topics[index_of_id(old(self)@.topics, id)], x) && !directory@.contains_key(x))
                ==> r is Err,
            r matches Ok(t) ==> {
                let ts = old(self)@.topics;
                let k = index_of_id(ts, id);
                &&& ts[k].created_by_user_id == user_id || guild_owner_id == user_id
                &&& forall|x: u64| #[trigger] refers_to(ts[k], x) ==> directory@.contains_key(x)
                &&& t@ == ts[k]
                &&& final(self)@.topics == ts.remove(k)
                &&& final(self)@.next_id == old(self)@.next_id
                &&& final(self)@.events == old(self)@.events + seq![TopicEventView::Delete(t@)]
            },
    {
        let ghost ts = self@.topics;
        let k = match self.index_of(id) {
            Some(k) => k,
            None => {
                return Err(TopicError::NotFound);
            },
        };
        assert(index_of_id(ts, id) == k as int) by {
            assert(has_topic(ts, id, k as int));
        }
        let topic = self.topics[k].clone();
        let mut one: Vec<Topic> = Vec::new();
        one.push(topic.clone());
        let ids = crate::personalize::collect_member_ids(&one);
        let members = directory.get_cached_members_by_ids(&ids);
        match crate::personalize::map_topic_with_user(&topic, &members, guild_owner_id, user_id) {
            Ok(p) => {
                proof {
                    lemma_lookup_member(members@, topic.created_by_user_id);
                    assert forall|x: u64| #[trigger] refers_to(ts[k as int], x) implies directory@.contains_key(x) by {
                        if x != topic.created_by_user_id {
                            let j = choose|j: int| 0 <= j < topic@.upvoted_by_users_ids.len() && topic@.upvoted_by_users_ids[j] == x;
                            lemma_lookup_member(members@, topic@.upvoted_by_users_ids[j]);
                            assert(crate::personalize::lookup(members@, topic@.upvoted_by_users_ids[j]) == Some(p.upvoted_by_users@[j]));
                        }
                    }
                }
            },
            Err(e) => {
                return Err(TopicError::Consistency(e));
            },
        }
        if topic.created_by_user_id != user_id && guild_owner_id != user_id {
            return Err(TopicError::Forbidden);
        }
        {
            self.topics.remove(k);
            proof {
                let n = self@.topics;
                assert(n =~= ts.remove(k as int));
                assert forall|i: int, j: int, g2: u64, u2: u64|
                    0 <= i < n.len() && 0 <= j < n.len() && #[trigger] holds_vote(n[i], g2, u2)
                        && #[trigger] holds_vote(n[j], g2, u2) implies i == j by {
                    let i0 = if i < k { i } else { i + 1 };
                    let j0 = if j < k { j } else { j + 1 };
                    assert(n[i] == ts[i0] && n[j] == ts[j0]);
                }
                assert forall|i: int, j: int| 0 <= i < n.len() && 0 <= j < n.len() && i != j implies n[i].id != n[j].id by {
                    let i0 = if i < k { i } else { i + 1 };
                    let j0 = if j < k { j } else { j + 1 };
                    assert(n[i] == ts[i0] && n[j] == ts[j0]);
                }
                assert forall|i: int| 0 <= i < n.len() implies (#[trigger] n[i]).upvoted_by_users_ids.no_duplicates()
                    && n[i].id < self.next_id
                    && (n[i].status == TopicStatus::Archived ==> n[i].upvoted_by_users_ids.len() == 0) by {
                    let i0 = if i < k { i } else { i + 1 };
                    assert(n[i] == ts[i0]);
                }
            }
        }
        self.events.push(TopicEvent::Delete(topic.clone()));
        Ok(topic)
    }
}


/// The entries of `ids` that a page shows.
pub open spec fn page_of(ids: Seq<u64>, p: PaginationParameters) -> Seq<u64> {
    if p.skip >= ids.len() {
        seq![]
    } else if p.skip + p.limit >= ids.len() {
        ids.skip(p.skip as int)
    } else {
        ids.subrange(p.skip as int, p.skip + p.limit)
    }
}

/// The ids of the guild's topics in status `st`, in rank order.
pub open spec fn ranked_ids(ts: Seq<TopicView>, g: u64, st: TopicStatus) -> Seq<u64> {
    ids_of(ranked(keys_of(ts, g, st)))
}

/// How many topics of guild `g` the store holds, in any status.
pub open spec fn count_in_guild(ts: Seq<TopicView>, g: u64) -> nat
    decreases ts.len(),
{
    if ts.len() == 0 {
        0
    } else {
        count_in_guild(ts.drop_last(), g) + if ts.last().guild_id == g { 1nat } else { 0nat }
    }
}

/// Every key of a guild's topics names a topic of the store.
pub proof fn lemma_keys_present(ts: Seq<TopicView>, g: u64, st: TopicStatus)
    ensures
        forall|x: RankKey| #[trigger] keys_of(ts, g, st).contains(x) ==> exists|k: int| has_topic(ts, x.id, k),
    decreases ts.len(),
{
    if ts.len() > 0 {
        let t = ts.drop_last();
        lemma_keys_present(t, g, st);
        assert forall|x: RankKey| #[trigger] keys_of(ts, g, st).contains(x) implies exists|k: int| has_topic(ts, x.id, k) by {
            let ks = keys_of(t, g, st);
            if ts.last().guild_id == g && ts.last().status == st && x == rank_key(ts.last()) {
                assert(has_topic(ts, x.id, ts.len() - 1));
            } else {
                assert(ks.contains(x)) by {
                    if ts.last().guild_id == g && ts.last().status == st {
                        let q = choose|q: int| 0 <= q < ks.push(rank_key(ts.last())).len() && ks.push(rank_key(ts.last()))[q] == x;
                        assert(ks[q] == x);
                    }
                }
                let k = choose|k: int| has_topic(t, x.id, k);
                assert(has_topic(ts, x.id, k));
            }
        }
    }
}

/// Whether a list page suggests that more topics follow: it does whenever the
/// page is full, also when nothing is left after it.
pub fn has_more_topics(topics: &Vec<Topic>, limit: usize) -> (r: bool)
    ensures
        r == (topics@.len() >= limit),
{
    topics.len() >= limit
}

impl PaginationParameters {
    /// The window of page `page` (counted from 1) of `limit` entries.
    pub fn for_page(page: usize, limit: usize) -> (r: PaginationParameters)
        requires
            page >= 1,
            page * limit <= usize::MAX,
        ensures
            r.limit == limit,
            r.skip == (page - 1) * limit,
    {
        proof {
            assert(page * limit >= limit) by (nonlinear_arith)
                requires
                    page >= 1,
            ;
            assert(page * limit - limit == (page - 1) * limit) by (nonlinear_arith);
        }
        PaginationParameters { skip: page * limit - limit, limit }
    }
}

impl TopicsService {
    /// A page of the guild's topics in status `status`, in rank order.
    pub fn get_topics_by_guild_id(&self, guild_id: u64, pagination: PaginationParameters, status: TopicStatus) -> (r: Vec<Topic>)
        requires
            self.wf(),
        ensures
            r@.len() == page_of(ranked_ids(self@.topics, guild_id, status), pagination).len(),
            forall|i: int| 0 <= i < r@.len() ==> names_topic(self@.topics,
                #[trigger] page_of(ranked_ids(self@.topics, guild_id, status), pagination)[i]),
            forall|i: int| 0 <= i < r@.len() ==> (#[trigger] r@[i])@ == self@.topics[index_of_id(
                self@.topics,
                page_of(ranked_ids(self@.topics, guild_id, status), pagination)[i],
            )],
    {
        let ghost ts = self@.topics;
        let keys = self.ranked_keys(guild_id, status);
        let ghost ids = ids_of(keys@);
        let ghost page = page_of(ids, pagination);
        proof {
            lemma_ranked_is_ranked(keys_of(ts, guild_id, status));
            lemma_keys_present(ts, guild_id, status);
        }
        let mut r: Vec<Topic> = Vec::new();
        if pagination.skip >= keys.len() {
            assert(page =~= Seq::<u64>::empty());
            return r;
        }
        let end: usize = if pagination.limit >= keys.len() - pagination.skip {
            keys.len()
        } else {
            pagination.skip + pagination.limit
        };
        assert(page =~= ids.subrange(pagination.skip as int, end as int));
        let mut i: usize = pagination.skip;
        while i < end
            invariant
                self.wf(),
                ts == self@.topics,
                keys@ == ranked(keys_of(ts, guild_id, status)),
                ids == ids_of(keys@),
                page == ids.subrange(pagination.skip as int, end as int),
                pagination.skip <= i <= end <= keys@.len(),
                r@.len() == i - pagination.skip,
                forall|q: int| 0 <= q < r@.len() ==> (#[trigger] r@[q])@ == ts[index_of_id(ts, page[q])],
                forall|q: int| 0 <= q < r@.len() ==> names_topic(ts, #[trigger] page[q]),
                forall|x: RankKey| #[trigger] keys_of(ts, guild_id, status).contains(x) ==> exists|k: int| has_topic(ts, x.id, k),
                keys@.to_multiset() == keys_of(ts, guild_id, status).to_multiset(),
            decreases end - i,
        {
            let key = keys[i];
            proof {
                keys@.to_multiset_ensures();
                keys_of(ts, guild_id, status).to_multiset_ensures();
                assert(keys@[i as int] == key);
                assert(keys@.contains(key));
                assert(keys@.to_multiset().count(key) > 0);
                assert(keys_of(ts, guild_id, status).contains(key));
            }
            match self.get_topic(key.id) {
                Some(t) => {
                    assert(page[(i - pagination.skip) as int] == key.id);
                    let ghost kk = choose|k: int| has_topic(ts, key.id, k);
                    assert(has_topic(ts, key.id, kk));
                    let ghost before = r@;
                    r.push(t);
                    assert forall|q: int| 0 <= q < r@.len() implies names_topic(ts, #[trigger] page[q]) by {
                        if q == before.len() {
                            assert(page[q] == key.id);
                            assert(has_topic(ts, page[q], kk));
                        }
                    }
                },
                None => {
                    assert(false);
                },
            }
            i += 1;
        }
        r
    }

    /// For each guild of `guild_ids`, how many topics it has, in any status.
    pub fn get_topics_count_by_guild_ids(&self, guild_ids: &Vec<u64>) -> (r: Vec<usize>)
        requires
            self.wf(),
        ensures
            r@.len() == guild_ids@.len(),
            forall|i: int| 0 <= i < r@.len() ==> r@[i] == count_in_guild(self@.topics, #[trigger] guild_ids@[i]),
    {
        let ghost ts = self@.topics;
        let mut r: Vec<usize> = Vec::new();
        let mut i: usize = 0;
        while i < guild_ids.len()
            invariant
                self.wf(),
                ts == self@.topics,
                i <= guild_ids@.len(),
                r@.len() == i,
                forall|q: int| 0 <= q < i ==> r@[q] == count_in_guild(ts, #[trigger] guild_ids@[q]),
            decreases guild_ids@.len() - i,
        {
            let g = guild_ids[i];
            let mut c: usize = 0;
            let mut j: usize = 0;
            assert(ts.take(0) =~= Seq::<TopicView>::empty());
            while j < self.topics.len()
                invariant
                    self.wf(),
                    ts == self@.topics,
                    j <= ts.len(),
                    c <= j,
                    c == count_in_guild(ts.take(j as int), g),
                decreases ts.len() - j,
            {
                assert(ts.take(j as int + 1).drop_last() =~= ts.take(j as int));
                assert(ts.take(j as int + 1).last() == ts[j as int]);
                if self.topics[j].guild_id == g {
                    c += 1;
                }
                j += 1;
            }
            assert(ts.take(ts.len() as int) =~= ts);
            r.push(c);
            i += 1;
        }
        r
    }
}


/// Whatever votes a member has cast, in whatever order and in whichever guild,
/// every state that the engine's operations reach holds that member's vote on
/// at most one `Created` topic of each guild.
pub proof fn lemma_at_most_one_active_vote(svc: &TopicsService, guild_id: u64, user_id: u64)
    requires
        svc.wf(),
    ensures
        forall|i: int, j: int|
            0 <= i < svc@.topics.len() && 0 <= j < svc@.topics.len()
                && #[trigger] holds_vote(svc@.topics[i], guild_id, user_id)
                && #[trigger] holds_vote(svc@.topics[j], guild_id, user_id) ==> i == j,
{
}

/// What every state of the engine satisfies: topic ids are distinct, no
/// topic lists a voter twice, an archived topic holds no vote, and each member
/// holds at most one active vote per guild.
pub proof fn lemma_store_is_well_formed(svc: &TopicsService)
    requires
        svc.wf(),
    ensures
        topics_wf(svc@.topics, svc@.next_id),
{
}

/// The store after member `u` votes, in guild `g`, for the topics at `ks`,
/// one after another.
pub open spec fn after_upvotes(ts: Seq<TopicView>, g: u64, u: u64, ks: Seq<int>) -> Seq<TopicView>
    decreases ks.len(),
{
    if ks.len() == 0 {
        ts
    } else {
        after_upvote(after_upvotes(ts, g, u, ks.drop_last()), g, u, ks.last())
    }
}

/// However many votes a member casts in a guild, and for whichever of its
/// `Created` topics, afterwards at most one `Created` topic of that guild holds their
/// vote, and the store is still well formed.
pub proof fn lemma_upvotes_leave_one_vote(ts: Seq<TopicView>, next_id: u64, g: u64, u: u64, ks: Seq<int>)
    requires
        topics_wf(ts, next_id),
        forall|i: int| 0 <= i < ks.len() ==> 0 <= #[trigger] ks[i] < ts.len() && ts[ks[i]].guild_id == g
            && ts[ks[i]].status == TopicStatus::Created,
    ensures
        topics_wf(after_upvotes(ts, g, u, ks), next_id),
        after_upvotes(ts, g, u, ks).len() == ts.len(),
        forall|j: int| 0 <= j < ts.len() ==> (#[trigger] after_upvotes(ts, g, u, ks)[j]).guild_id == ts[j].guild_id
            && after_upvotes(ts, g, u, ks)[j].status == ts[j].status,
        forall|i: int, j: int|
            0 <= i < ts.len() && 0 <= j < ts.len()
                && #[trigger] holds_vote(after_upvotes(ts, g, u, ks)[i], g, u)
                && #[trigger] holds_vote(after_upvotes(ts, g, u, ks)[j], g, u) ==> i == j,
    decreases ks.len(),
{
    if ks.len() > 0 {
        let prefix = ks.drop_last();
        assert forall|i: int| 0 <= i < prefix.len() implies 0 <= #[trigger] prefix[i] < ts.len() && ts[prefix[i]].guild_id == g
            && ts[prefix[i]].status == TopicStatus::Created by {
            assert(prefix[i] == ks[i]);
        }
        lemma_upvotes_leave_one_vote(ts, next_id, g, u, prefix);
        let before = after_upvotes(ts, g, u, prefix);
        let k = ks.last();
        assert(k == ks[ks.len() - 1]);
        lemma_strip_wf(before, next_id, g, u);
        lemma_add_vote_wf(strip_votes(before, g, u), next_id, g, u, k);
    }
}

/// The order of a guild depends on nothing but the ids, vote counts and
/// update times of its `Created` topics, in store order: computing it twice
/// over the same such data gives the same list. That list is sorted by votes,
/// then by update time, both descending, holds each of those topics once, and
/// is stable: topics that tie on both keep their store order. In a store with
/// distinct topic ids no id appears twice in it.
pub proof fn lemma_order_is_deterministic(a: Seq<TopicView>, b: Seq<TopicView>, guild_id: u64)
    requires
        keys_of(a, guild_id, TopicStatus::Created) == keys_of(b, guild_id, TopicStatus::Created),
    ensures
        guild_order(a, guild_id) == guild_order(b, guild_id),
        is_ranked(ranked(keys_of(a, guild_id, TopicStatus::Created))),
        ranked(keys_of(a, guild_id, TopicStatus::Created)).to_multiset()
            == keys_of(a, guild_id, TopicStatus::Created).to_multiset(),
        forall|votes: usize, updated_at: u64|
            #[trigger] ranked(keys_of(a, guild_id, TopicStatus::Created)).filter(tie_class(votes, updated_at))
                == keys_of(a, guild_id, TopicStatus::Created).filter(tie_class(votes, updated_at)),
        (forall|i: int, j: int| 0 <= i < a.len() && 0 <= j < a.len() && i != j ==> a[i].id != a[j].id)
            ==> guild_order(a, guild_id).no_duplicates(),
{
    let keys = keys_of(a, guild_id, TopicStatus::Created);
    lemma_ranked_is_ranked(keys);
    if forall|i: int, j: int| 0 <= i < a.len() && 0 <= j < a.len() && i != j ==> a[i].id != a[j].id {
        crate::topic::lemma_keys_distinct(a, guild_id, TopicStatus::Created);
        crate::topic::lemma_ranked_distinct(keys);
        crate::topic::lemma_ids_of_distinct(ranked(keys));
    }
    assert forall|votes: usize, updated_at: u64|
        #[trigger] ranked(keys).filter(tie_class(votes, updated_at)) == keys.filter(tie_class(votes, updated_at)) by {
        lemma_ranked_keeps_ties(keys, votes, updated_at);
    }
}

/// `p` is topic `t` as viewer `u` sees it in a guild created by `owner`,
/// its creator and voters taken from the directory `dir`.
pub open spec fn shows_topic(p: crate::personalize::TopicPersonalized, t: TopicView, dir: Map<u64, crate::member::Member>, owner: u64, u: u64) -> bool {
    &&& p.id == t.id
    &&& p.guild_id == t.guild_id
    &&& p.text@ == t.text
    &&& p.status == t.status
    &&& p.is_status_archived == (t.status == TopicStatus::Archived)
    &&& p.will_be_presented_by_the_creator == t.will_be_presented_by_the_creator
    &&& dir.contains_key(t.created_by_user_id)
    &&& p.created_by_user == dir[t.created_by_user_id]
    &&& p.can_change_status == (owner == u)
    &&& p.can_delete == (owner == u || t.created_by_user_id == u)
    &&& p.can_edit == (owner == u || t.created_by_user_id == u)
    &&& p.is_upvoted_by_current_user == t.upvoted_by_users_ids.contains(u)
    &&& p.upvoted_by_users@.len() == t.upvoted_by_users_ids.len()
    &&& forall|j: int| 0 <= j < t.upvoted_by_users_ids.len() ==> dir.contains_key(#[trigger] t.upvoted_by_users_ids[j])
        && p.upvoted_by_users@[j] == dir[t.upvoted_by_users_ids[j]]
    &&& p.updated_at == t.updated_at
    &&& p.created_at == t.created_at
}

/// Member `x` is the creator or a voter of `t`.
pub open spec fn refers_to(t: TopicView, x: u64) -> bool {
    t.created_by_user_id == x || t.upvoted_by_users_ids.contains(x)
}

impl TopicsService {
    /// A page of the guild's topics in status `status`, in rank order, as
    /// viewer `user_id` sees them, people resolved through the directory.
    /// All or nothing: one person that does not resolve fails the page.
    pub fn get_personalized_topics(
        &self,
        directory: &crate::directory::GitlabService,
        guild_id: u64,
        guild_owner_id: u64,
        user_id: u64,
        pagination: PaginationParameters,
        status: TopicStatus,
    ) -> (r: Result<Vec<crate::personalize::TopicPersonalized>, crate::personalize::ConsistencyError>)
        requires
            self.wf(),
            directory.wf(),
        ensures
            page_of(ranked_ids(self@.topics, guild_id, status), pagination).len() == 0 ==> (r matches Ok(ps) && ps@.len() == 0),
            (exists|i: int, x: u64| 0 <= i < page_of(ranked_ids(self@.topics, guild_id, status), pagination).len()
                && #[trigger] refers_to(self@.topics[index_of_id(self@.topics, page_of(ranked_ids(self@.topics, guild_id, status), pagination)[i])], x)
                && !directory@.contains_key(x)) ==> r is Err,
            r matches Ok(ps) ==> {
                let page = page_of(ranked_ids(self@.topics, guild_id, status), pagination);
                &&& ps@.len() == page.len()
                &&& forall|i: int| 0 <= i < page.len() ==> names_topic(self@.topics, #[trigger] page[i])
                &&& forall|i: int| 0 <= i < ps@.len() ==> shows_topic(#[trigger] ps@[i],
                    self@.topics[index_of_id(self@.topics, page[i])], directory@, guild_owner_id, user_id)
            },
    {
        let topics = self.get_topics_by_guild_id(guild_id, pagination, status);
        let ids = crate::personalize::collect_member_ids(&topics);
        let members = directory.get_cached_members_by_ids(&ids);
        let r = crate::personalize::personalize_topics(&topics, &members, guild_owner_id, user_id);
        proof {
            let page = page_of(ranked_ids(self@.topics, guild_id, status), pagination);
            if r is Ok {
                let ps = r->Ok_0;
                assert forall|i: int| 0 <= i < ps@.len() implies shows_topic(#[trigger] ps@[i],
                    self@.topics[index_of_id(self@.topics, page[i])], directory@, guild_owner_id, user_id) by {
                    let t = topics@[i];
                    assert(crate::personalize::personalizes(ps@[i], t, members@, guild_owner_id, user_id));
                    lemma_lookup_member(members@, t.created_by_user_id);
                    assert forall|j: int| 0 <= j < t@.upvoted_by_users_ids.len() implies directory@.contains_key(#[trigger] t@.upvoted_by_users_ids[j])
                        && ps@[i].upvoted_by_users@[j] == directory@[t@.upvoted_by_users_ids[j]] by {
                        lemma_lookup_member(members@, t@.upvoted_by_users_ids[j]);
                        assert(Some(ps@[i].upvoted_by_users@[j]) == crate::personalize::lookup(members@, t@.upvoted_by_users_ids[j]));
                    }
                }
            }
            if exists|i: int, x: u64| 0 <= i < page.len()
                && #[trigger] refers_to(self@.topics[index_of_id(self@.topics, page[i])], x) && !directory@.contains_key(x) {
                let (i, x) = choose|i: int, x: u64| 0 <= i < page.len()
                    && #[trigger] refers_to(self@.topics[index_of_id(self@.topics, page[i])], x) && !directory@.contains_key(x);
                if r is Ok {
                    let ps = r->Ok_0;
                    assert(shows_topic(ps@[i], self@.topics[index_of_id(self@.topics, page[i])], directory@, guild_owner_id, user_id));
                    let t = self@.topics[index_of_id(self@.topics, page[i])];
                    if t.created_by_user_id != x {
                        let j = choose|j: int| 0 <= j < t.upvoted_by_users_ids.len() && t.upvoted_by_users_ids[j] == x;
                        assert(directory@.contains_key(t.upvoted_by_users_ids[j]));
                    }
                }
            }
        }
        r
    }
}

} // verus!
