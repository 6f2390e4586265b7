use vstd::prelude::*;

use crate::member::Member;
use crate::topic::{Topic, TopicStatus};

verus! {

/// A topic as one viewer sees it: its creator and voters resolved to
/// directory records, and what the viewer may do with it.
pub struct TopicPersonalized {
    pub id: u64,
    pub guild_id: u64,
    pub text: String,
    pub status: TopicStatus,
    pub is_status_archived: bool,
    pub will_be_presented_by_the_creator: bool,
    pub created_by_user: Member,
    pub can_change_status: bool,
    pub can_delete: bool,
    pub can_edit: bool,
    pub is_upvoted_by_current_user: bool,
    pub upvoted_by_users: Vec<Member>,
    pub updated_at: u64,
    pub created_at: u64,
}

/// A member that a topic refers to is missing from the directory.
#[derive(PartialEq, Eq, Structural, Clone, Copy, Debug)]
pub enum ConsistencyError {
    MissingCreator(u64),
    MissingUpvoter(u64),
}

/// The first record of `ms` with id `id`.
pub open spec fn lookup(ms: Seq<Member>, id: u64) -> Option<Member>
    decreases ms.len(),
{
    if ms.len() == 0 {
        None
    } else {
        match lookup(ms.drop_last(), id) {
            Some(m) => Some(m),
            None => if ms.last().id == id {
                Some(ms.last())
            } else {
                None
            },
        }
    }
}

/// What `lookup` finds is one of the records, filed under the id looked for.
pub proof fn lemma_lookup_member(ms: Seq<Member>, id: u64)
    ensures
        lookup(ms, id) matches Some(m) ==> m.id == id && ms.contains(m),
    decreases ms.len(),
{
    if ms.len() > 0 {
        lemma_lookup_member(ms.drop_last(), id);
        if let Some(m) = lookup(ms.drop_last(), id) {
            let k = choose|k: int| 0 <= k < ms.drop_last().len() && ms.drop_last()[k] == m;
            assert(ms[k] == m);
        } else if ms.last().id == id {
            assert(ms[ms.len() - 1] == ms.last());
        }
    }
}

proof fn lemma_lookup_prefix(ms: Seq<Member>, id: u64, i: int)
    requires
        0 <= i <= ms.len(),
        lookup(ms.take(i), id) is Some,
    ensures
        lookup(ms, id) == lookup(ms.take(i), id),
    decreases ms.len() - i,
{
    if i < ms.len() {
        assert(ms.take(i + 1).drop_last() =~= ms.take(i));
        lemma_lookup_prefix(ms, id, i + 1);
    } else {
        assert(ms.take(i) =~= ms);
    }
}

/// The directory record of `id` among `members`, the first one if several.
pub fn find_member(members: &Vec<Member>, id: u64) -> (r: Option<Member>)
    ensures
        r == lookup(members@, id),
{
    let ghost ms = members@;
    let mut i: usize = 0;
    assert(ms.take(0) =~= Seq::<Member>::empty());
    while i < members.len()
        invariant
            ms == members@,
            i <= ms.len(),
            lookup(ms.take(i as int), id) is None,
        decreases ms.len() - i,
    {
        assert(ms.take(i as int + 1).drop_last() =~= ms.take(i as int));
        assert(ms.take(i as int + 1).last() == ms[i as int]);
        if members[i].id == id {
            proof {
                lemma_lookup_prefix(ms, id, i as int + 1);
            }
            return Some(members[i].clone());
        }
        i += 1;
    }
    assert(ms.take(ms.len() as int) =~= ms);
    None
}

/// Every voter of `voters` resolves among `ms`.
pub open spec fn all_resolved(ms: Seq<Member>, voters: Seq<u64>) -> bool {
    forall|i: int| 0 <= i < voters.len() ==> (#[trigger] lookup(ms, voters[i])) is Some
}

/// `p` is `t` as viewer `u` sees it in a guild created by `owner`, with
/// people resolved among `ms`.
pub open spec fn personalizes(p: TopicPersonalized, t: Topic, ms: Seq<Member>, owner: u64, u: u64) -> bool {
    &&& p.id == t.id
    &&& p.guild_id == t.guild_id
    &&& p.text@ == t.text@
    &&& p.status == t.status
    &&& p.is_status_archived == (t.status == TopicStatus::Archived)
    &&& p.will_be_presented_by_the_creator == t.will_be_presented_by_the_creator
    &&& Some(p.created_by_user) == lookup(ms, t.created_by_user_id)
    &&& p.can_change_status == (owner == u)
    &&& p.can_delete == (owner == u || t.created_by_user_id == u)
    &&& p.can_edit == (owner == u || t.created_by_user_id == u)
    &&& p.is_upvoted_by_current_user == t@.upvoted_by_users_ids.contains(u)
    &&& p.upvoted_by_users@.len() == t@.upvoted_by_users_ids.len()
    &&& forall|i: int| 0 <= i < p.upvoted_by_users@.len() ==>
        Some(#[trigger] p.upvoted_by_users@[i]) == lookup(ms, t@.upvoted_by_users_ids[i])
    &&& p.updated_at == t.updated_at
    &&& p.created_at == t.created_at
}

/// Every person that `t` refers to resolves among `ms`.
pub open spec fn resolves(ms: Seq<Member>, t: Topic) -> bool {
    lookup(ms, t.created_by_user_id) is Some && all_resolved(ms, t@.upvoted_by_users_ids)
}

/// Resolves the creator and every voter of `topic` among `members`, for the
/// viewer `user_id` in a guild created by `guild_owner_id`. All or nothing: a
/// single id that does not resolve fails the whole topic.
pub fn map_topic_with_user(topic: &Topic, members: &Vec<Member>, guild_owner_id: u64, user_id: u64) -> (r: Result<TopicPersonalized, ConsistencyError>)
    ensures
        r is Ok <==> lookup(members@, topic.created_by_user_id) is Some && all_resolved(members@, topic@.upvoted_by_users_ids),
        r matches Err(e) ==> (lookup(members@, topic.created_by_user_id) is None ==> e == ConsistencyError::MissingCreator(topic.created_by_user_id)),
        r matches Err(e) ==> (e matches ConsistencyError::MissingUpvoter(x) ==> topic@.upvoted_by_users_ids.contains(x) && lookup(members@, x) is None),
        r matches Ok(p) ==> personalizes(p, *topic, members@, guild_owner_id, user_id),
{
    let found = find_member(members, topic.created_by_user_id);
    let created_by_user = match found {
        Some(m) => m,
        None => {
            return Err(ConsistencyError::MissingCreator(topic.created_by_user_id));
        },
    };
    assert(lookup(members@, topic.created_by_user_id) == Some(created_by_user));
    let voters = &topic.upvoted_by_users_ids;
    let mut upvoted_by_users: Vec<Member> = Vec::new();
    let mut is_upvoted_by_current_user = false;
    let mut i: usize = 0;
    while i < voters.len()
        invariant
            i <= voters@.len(),
            voters@ == topic@.upvoted_by_users_ids,
            upvoted_by_users@.len() == i,
            forall|q: int| 0 <= q < i ==> Some(#[trigger] upvoted_by_users@[q]) == lookup(members@, voters@[q]),
            forall|q: int| 0 <= q < i ==> (#[trigger] lookup(members@, voters@[q])) is Some,
            is_upvoted_by_current_user == voters@.take(i as int).contains(user_id),
            lookup(members@, topic.created_by_user_id) == Some(created_by_user),
        decreases voters@.len() - i,
    {
        match find_member(members, voters[i]) {
            Some(m) => {
                upvoted_by_users.push(m);
            },
            None => {
                assert(voters@[i as int] == voters[i as int]);
                return Err(ConsistencyError::MissingUpvoter(voters[i]));
            },
        }
        proof {
            let t = voters@.take(i as int + 1);
            assert(t =~= voters@.take(i as int).push(voters@[i as int]));
            crate::votes::lemma_push_contains(voters@.take(i as int), voters@[i as int], user_id);
        }
        if voters[i] == user_id {
            is_upvoted_by_current_user = true;
        }
        i += 1;
    }
    assert(voters@.take(voters@.len() as int) =~= voters@);
    let is_owner = guild_owner_id == user_id;
    let is_creator = topic.created_by_user_id == user_id;
    Ok(TopicPersonalized {
        id: topic.id,
        guild_id: topic.guild_id,
        text: topic.text.clone(),
        status: topic.status,
        is_status_archived: topic.status == TopicStatus::Archived,
        will_be_presented_by_the_creator: topic.will_be_presented_by_the_creator,
        created_by_user,
        can_change_status: is_owner,
        can_delete: is_owner || is_creator,
        can_edit: is_owner || is_creator,
        is_upvoted_by_current_user,
        upvoted_by_users,
        updated_at: topic.updated_at,
        created_at: topic.created_at,
    })
}

impl TopicPersonalized {
    /// The topic as the store and the event stream carry it: people by id.
    pub fn into_topic(self) -> (r: Topic)
        ensures
            r.id == self.id,
            r.guild_id == self.guild_id,
            r.text@ == self.text@,
            r.status == self.status,
            r.will_be_presented_by_the_creator == self.will_be_presented_by_the_creator,
            r.created_by_user_id == self.created_by_user.id,
            r@.upvoted_by_users_ids == self.upvoted_by_users@.map_values(|m: Member| m.id),
            r.updated_at == self.updated_at,
            r.created_at == self.created_at,
    {
        let mut ids: Vec<u64> = Vec::new();
        let mut i: usize = 0;
        while i < self.upvoted_by_users.len()
            invariant
                i <= self.upvoted_by_users@.len(),
                ids@.len() == i,
                forall|k: int| 0 <= k < i ==> ids@[k] == self.upvoted_by_users@[k].id,
            decreases self.upvoted_by_users@.len() - i,
        {
            ids.push(self.upvoted_by_users[i].id);
            i += 1;
        }
        assert(ids@ =~= self.upvoted_by_users@.map_values(|m: Member| m.id));
        Topic {
            id: self.id,
            guild_id: self.guild_id,
            text: self.text,
            status: self.status,
            will_be_presented_by_the_creator: self.will_be_presented_by_the_creator,
            created_by_user_id: self.created_by_user.id,
            upvoted_by_users_ids: ids,
            updated_at: self.updated_at,
            created_at: self.created_at,
        }
    }
}

/// The members that `topics` refer to, each once: creators and voters, in
/// order of first mention.
pub fn collect_member_ids(topics: &Vec<Topic>) -> (r: Vec<u64>)
    ensures
        r@.no_duplicates(),
        forall|x: u64| #[trigger] r@.contains(x) <==> exists|i: int| 0 <= i < topics@.len() && (
            topics@[i].created_by_user_id == x || topics@[i]@.upvoted_by_users_ids.contains(x)),
{
    let mut r: Vec<u64> = Vec::new();
    let mut i: usize = 0;
    while i < topics.len()
        invariant
            i <= topics@.len(),
            r@.no_duplicates(),
            forall|x: u64| #[trigger] r@.contains(x) <==> exists|k: int| 0 <= k < i && (
                topics@[k].created_by_user_id == x || topics@[k]@.upvoted_by_users_ids.contains(x)),
        decreases topics@.len() - i,
    {
        let t = &topics[i];
        push_unique(&mut r, t.created_by_user_id);
        let mut j: usize = 0;
        while j < t.upvoted_by_users_ids.len()
            invariant
                i < topics@.len(),
                t == &topics@[i as int],
                j <= t.upvoted_by_users_ids@.len(),
                r@.no_duplicates(),
                forall|x: u64| #[trigger] r@.contains(x) <==> (exists|k: int| 0 <= k < i && (
                    topics@[k].created_by_user_id == x || topics@[k]@.upvoted_by_users_ids.contains(x)))
                    || x == t.created_by_user_id || t.upvoted_by_users_ids@.take(j as int).contains(x),
            decreases t.upvoted_by_users_ids@.len() - j,
        {
            proof {
                assert(t.upvoted_by_users_ids@.take(j as int + 1) =~= t.upvoted_by_users_ids@.take(j as int).push(t.upvoted_by_users_ids@[j as int]));
                assert forall|x: u64| true implies (t.upvoted_by_users_ids@.take(j as int + 1).contains(x) <==> (t.upvoted_by_users_ids@.take(j as int).contains(x) || x == t.upvoted_by_users_ids@[j as int])) by {
                    crate::votes::lemma_push_contains(t.upvoted_by_users_ids@.take(j as int), t.upvoted_by_users_ids@[j as int], x);
                }
            }
            push_unique(&mut r, t.upvoted_by_users_ids[j]);
            j += 1;
        }
        proof {
            assert(t.upvoted_by_users_ids@.take(t.upvoted_by_users_ids@.len() as int) =~= t.upvoted_by_users_ids@);
            assert forall|x: u64| #[trigger] r@.contains(x) <==> exists|k: int| 0 <= k < i + 1 && (
                topics@[k].created_by_user_id == x || topics@[k]@.upvoted_by_users_ids.contains(x)) by {
                if r@.contains(x) && (x == t.created_by_user_id || t.upvoted_by_users_ids@.contains(x)) {
                    assert(topics@[i as int].created_by_user_id == x || topics@[i as int]@.upvoted_by_users_ids.contains(x));
                }
            }
        }
        i += 1;
    }
    r
}

fn push_unique(r: &mut Vec<u64>, x: u64)
    requires
        old(r)@.no_duplicates(),
    ensures
        final(r)@.no_duplicates(),
        forall|y: u64| #[trigger] final(r)@.contains(y) <==> (old(r)@.contains(y) || y == x),
{
    proof {
        crate::votes::lemma_with_voter(r@, x);
    }
    if !crate::votes::has_voter(r, x) {
        r.push(x);
    }
    assert(r@ == crate::votes::with_voter(old(r)@, x));
    proof {
        assert forall|y: u64| #[trigger] r@.contains(y) <==> (old(r)@.contains(y) || y == x) by {
            if y != x {
            }
        }
    }
}

/// Personalizes every topic of `topics` in order; the first topic that does
/// not resolve fails the whole list.
pub fn personalize_topics(topics: &Vec<Topic>, members: &Vec<Member>, guild_owner_id: u64, user_id: u64) -> (r: Result<Vec<TopicPersonalized>, ConsistencyError>)
    ensures
        r is Ok <==> forall|i: int| 0 <= i < topics@.len() ==> resolves(members@, #[trigger] topics@[i]),
        r matches Ok(ps) ==> ps@.len() == topics@.len() && forall|i: int| 0 <= i < ps@.len() ==>
            personalizes(#[trigger] ps@[i], topics@[i], members@, guild_owner_id, user_id),
{
    let mut ps: Vec<TopicPersonalized> = Vec::new();
    let mut i: usize = 0;
    while i < topics.len()
        invariant
            i <= topics@.len(),
            ps@.len() == i,
            forall|k: int| 0 <= k < i ==> resolves(members@, #[trigger] topics@[k]),
            forall|k: int| 0 <= k < i ==> personalizes(#[trigger] ps@[k], topics@[k], members@, guild_owner_id, user_id),
        decreases topics@.len() - i,
    {
        match map_topic_with_user(&topics[i], members, guild_owner_id, user_id) {
            Ok(p) => {
                ps.push(p);
            },
            Err(e) => {
                return Err(e);
            },
        }
        i += 1;
    }
    Ok(ps)
}

} // verus!
