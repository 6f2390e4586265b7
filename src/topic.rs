use vstd::multiset::Multiset;
use vstd::prelude::*;

verus! {

/// Lifecycle state of a topic: only `Created` topics are ranked and voted on.
#[derive(PartialEq, Eq, Structural, Clone, Copy, Debug)]
pub enum TopicStatus {
    Created,
    Archived,
}

/// An agenda item of a guild, as the store holds it.
pub struct Topic {
    pub id: u64,
    pub guild_id: u64,
    pub text: String,
    pub status: TopicStatus,
    pub will_be_presented_by_the_creator: bool,
    pub created_by_user_id: u64,
    pub upvoted_by_users_ids: Vec<u64>,
    /// Milliseconds since the epoch.
    pub updated_at: u64,
    /// Milliseconds since the epoch.
    pub created_at: u64,
}

/// The mathematical value of a [`Topic`].
pub struct TopicView {
    pub id: u64,
    pub guild_id: u64,
    pub text: Seq<char>,
    pub status: TopicStatus,
    pub will_be_presented_by_the_creator: bool,
    pub created_by_user_id: u64,
    pub upvoted_by_users_ids: Seq<u64>,
    pub updated_at: u64,
    pub created_at: u64,
}

impl View for Topic {
    type V = TopicView;

    open spec fn view(&self) -> TopicView {
        TopicView {
            id: self.id,
            guild_id: self.guild_id,
            text: self.text@,
            status: self.status,
            will_be_presented_by_the_creator: self.will_be_presented_by_the_creator,
            created_by_user_id: self.created_by_user_id,
            upvoted_by_users_ids: self.upvoted_by_users_ids@,
            updated_at: self.updated_at,
            created_at: self.created_at,
        }
    }
}

impl Clone for Topic {
    fn clone(&self) -> (r: Topic)
        ensures
            r@ == self@,
    {
        Topic {
            id: self.id,
            guild_id: self.guild_id,
            text: self.text.clone(),
            status: self.status,
            will_be_presented_by_the_creator: self.will_be_presented_by_the_creator,
            created_by_user_id: self.created_by_user_id,
            upvoted_by_users_ids: self.upvoted_by_users_ids.clone(),
            updated_at: self.updated_at,
            created_at: self.created_at,
        }
    }
}

/// What the ranking reads of a topic.
#[derive(PartialEq, Eq, Structural, Clone, Copy, Debug)]
pub struct RankKey {
    pub id: u64,
    pub votes: usize,
    pub updated_at: u64,
}

pub open spec fn rank_key(t: TopicView) -> RankKey {
    RankKey { id: t.id, votes: t.upvoted_by_users_ids.len() as usize, updated_at: t.updated_at }
}

/// `a` is ranked strictly above `b`: more votes, or as many and updated later.
pub open spec fn outranks(a: RankKey, b: RankKey) -> bool {
    a.votes > b.votes || (a.votes == b.votes && a.updated_at > b.updated_at)
}

/// Places `k` before the first entry of `s` that it outranks; equal keys keep
/// their arrival order.
pub open spec fn insert_ranked(s: Seq<RankKey>, k: RankKey) -> Seq<RankKey>
    decreases s.len(),
{
    if s.len() == 0 {
        seq![k]
    } else if outranks(k, s[0]) {
        seq![k] + s
    } else {
        seq![s[0]] + insert_ranked(s.drop_first(), k)
    }
}

/// The ranking of `s`: a stable sort by votes, then by last update, both descending.
pub open spec fn ranked(s: Seq<RankKey>) -> Seq<RankKey>
    decreases s.len(),
{
    if s.len() == 0 {
        seq![]
    } else {
        insert_ranked(ranked(s.drop_last()), s.last())
    }
}

/// The keys of the topics of guild `g` in status `st`, in store order.
pub open spec fn keys_of(ts: Seq<TopicView>, g: u64, st: TopicStatus) -> Seq<RankKey>
    decreases ts.len(),
{
    if ts.len() == 0 {
        seq![]
    } else if ts.last().guild_id == g && ts.last().status == st {
        keys_of(ts.drop_last(), g, st).push(rank_key(ts.last()))
    } else {
        keys_of(ts.drop_last(), g, st)
    }
}

pub open spec fn ids_of(s: Seq<RankKey>) -> Seq<u64> {
    s.map_values(|k: RankKey| k.id)
}

/// The authoritative order of a guild: ids of its `Created` topics, ranked.
pub open spec fn guild_order(ts: Seq<TopicView>, g: u64) -> Seq<u64> {
    ids_of(ranked(keys_of(ts, g, TopicStatus::Created)))
}

/// Entries `i < j` of `s` never have `s[j]` ranked strictly above `s[i]`.
pub open spec fn is_ranked(s: Seq<RankKey>) -> bool {
    forall|i: int, j: int| 0 <= i < j < s.len() ==> !outranks(#[trigger] s[j], #[trigger] s[i])
}

pub proof fn lemma_insert_ranked_split(s: Seq<RankKey>, k: RankKey, p: int)
    requires
        0 <= p <= s.len(),
        forall|i: int| 0 <= i < p ==> !outranks(k, #[trigger] s[i]),
        p == s.len() || outranks(k, s[p]),
    ensures
        insert_ranked(s, k) == s.take(p) + seq![k] + s.skip(p),
    decreases s.len(),
{
    if s.len() == 0 {
        assert(s.take(p) + seq![k] + s.skip(p) =~= seq![k]);
    } else if p == 0 {
        assert(s.take(p) + seq![k] + s.skip(p) =~= seq![k] + s);
    } else {
        let t = s.drop_first();
        assert forall|i: int| 0 <= i < p - 1 implies !outranks(k, #[trigger] t[i]) by {
            assert(t[i] == s[i + 1]);
        }
        lemma_insert_ranked_split(t, k, p - 1);
        assert(s.take(p) + seq![k] + s.skip(p) =~= seq![s[0]] + (t.take(p - 1) + seq![k] + t.skip(p - 1)));
    }
}

pub proof fn lemma_insert_ranked_keeps_order(s: Seq<RankKey>, k: RankKey)
    requires
        is_ranked(s),
    ensures
        is_ranked(insert_ranked(s, k)),
        insert_ranked(s, k).to_multiset() == s.to_multiset().insert(k),
    decreases s.len(),
{
    broadcast use vstd::seq_lib::group_to_multiset_ensures;
    if s.len() == 0 {
        assert(seq![k] =~= Seq::<RankKey>::empty().push(k));
    } else if outranks(k, s[0]) {
        let r = seq![k] + s;
        assert forall|i: int, j: int| 0 <= i < j < r.len() implies !outranks(#[trigger] r[j], #[trigger] r[i]) by {
            if i > 0 {
                assert(r[i] == s[i - 1] && r[j] == s[j - 1]);
            } else {
                assert(r[j] == s[j - 1]);
                if j - 1 > 0 {
                    assert(!outranks(s[j - 1], s[0]));
                }
            }
        }
        vstd::seq_lib::lemma_multiset_commutative(seq![k], s);
        assert(seq![k].to_multiset() =~= Multiset::empty().insert(k)) by {
            assert(seq![k] =~= Seq::<RankKey>::empty().push(k));
        }
    } else {
        let t = s.drop_first();
        assert(is_ranked(t)) by {
            assert forall|i: int, j: int| 0 <= i < j < t.len() implies !outranks(#[trigger] t[j], #[trigger] t[i]) by {
                assert(t[i] == s[i + 1] && t[j] == s[j + 1]);
            }
        }
        lemma_insert_ranked_keeps_order(t, k);
        let it = insert_ranked(t, k);
        let r = seq![s[0]] + it;
        assert forall|i: int, j: int| 0 <= i < j < r.len() implies !outranks(#[trigger] r[j], #[trigger] r[i]) by {
            if i > 0 {
                assert(r[i] == it[i - 1] && r[j] == it[j - 1]);
            } else {
                assert(r[j] == it[j - 1]);
                assert(it.to_multiset().count(it[j - 1]) > 0);
                assert(it.to_multiset() == t.to_multiset().insert(k));
                if it[j - 1] != k {
                    assert(t.to_multiset().count(it[j - 1]) > 0);
                    let q = choose|q: int| 0 <= q < t.len() && t[q] == it[j - 1];
                    assert(t[q] == s[q + 1]);
                }
            }
        }
        vstd::seq_lib::lemma_multiset_commutative(seq![s[0]], it);
        vstd::seq_lib::lemma_multiset_commutative(seq![s[0]], t);
        assert(seq![s[0]] + t =~= s);
    }
}

pub proof fn lemma_ranked_is_ranked(s: Seq<RankKey>)
    ensures
        is_ranked(ranked(s)),
        ranked(s).to_multiset() == s.to_multiset(),
    decreases s.len(),
{
    broadcast use vstd::seq_lib::group_to_multiset_ensures;
    if s.len() > 0 {
        lemma_ranked_is_ranked(s.drop_last());
        lemma_insert_ranked_keeps_order(ranked(s.drop_last()), s.last());
        assert(s.drop_last().push(s.last()) =~= s);
    }
}

/// The keys that tie with votes `votes` and update time `updated_at`.
pub open spec fn tie_class(votes: usize, updated_at: u64) -> spec_fn(RankKey) -> bool {
    |k: RankKey| k.votes == votes && k.updated_at == updated_at
}

proof fn lemma_insert_ranked_keeps_ties(s: Seq<RankKey>, k: RankKey, votes: usize, updated_at: u64)
    requires
        is_ranked(s),
    ensures
        insert_ranked(s, k).filter(tie_class(votes, updated_at)) == if tie_class(votes, updated_at)(k) {
            s.filter(tie_class(votes, updated_at)).push(k)
        } else {
            s.filter(tie_class(votes, updated_at))
        },
    decreases s.len(),
{
    let p = tie_class(votes, updated_at);
    if s.len() == 0 {
        Seq::<RankKey>::empty().lemma_filter_push(k, p);
        assert(insert_ranked(s, k) =~= Seq::<RankKey>::empty().push(k));
        assert(s =~= Seq::<RankKey>::empty());
    } else if outranks(k, s[0]) {
        s.lemma_filter_prepend(k, p);
        assert(insert_ranked(s, k) == seq![k] + s);
        if p(k) {
            assert forall|i: int| 0 <= i < s.len() implies !p(#[trigger] s[i]) by {
                if i > 0 {
                    assert(!outranks(s[i], s[0]));
                }
            }
            assert(s.all(|x: RankKey| !p(x)));
            s.lemma_all_neg_filter_empty(p);
            assert(s.filter(p) =~= Seq::<RankKey>::empty());
            assert(seq![k] + s.filter(p) =~= s.filter(p).push(k));
        } else {
            assert(Seq::<RankKey>::empty() + s.filter(p) =~= s.filter(p));
        }
    } else {
        let t = s.drop_first();
        assert(is_ranked(t)) by {
            assert forall|i: int, j: int| 0 <= i < j < t.len() implies !outranks(#[trigger] t[j], #[trigger] t[i]) by {
                assert(t[i] == s[i + 1] && t[j] == s[j + 1]);
            }
        }
        lemma_insert_ranked_keeps_ties(t, k, votes, updated_at);
        let it = insert_ranked(t, k);
        assert(insert_ranked(s, k) == seq![s[0]] + it);
        it.lemma_filter_prepend(s[0], p);
        t.lemma_filter_prepend(s[0], p);
        assert(seq![s[0]] + t =~= s);
        let head = if p(s[0]) { seq![s[0]] } else { Seq::<RankKey>::empty() };
        if p(k) {
            assert(head + t.filter(p).push(k) =~= (head + t.filter(p)).push(k));
        }
    }
}

/// Ranking is stable: keys that tie on votes and update time keep the order
/// they had in `s`.
pub proof fn lemma_ranked_keeps_ties(s: Seq<RankKey>, votes: usize, updated_at: u64)
    ensures
        ranked(s).filter(tie_class(votes, updated_at)) == s.filter(tie_class(votes, updated_at)),
    decreases s.len(),
{
    if s.len() == 0 {
        assert(ranked(s) =~= s);
    } else {
        let t = s.drop_last();
        lemma_ranked_keeps_ties(t, votes, updated_at);
        lemma_ranked_is_ranked(t);
        lemma_insert_ranked_keeps_ties(ranked(t), s.last(), votes, updated_at);
        assert(t.push(s.last()) =~= s);
        t.lemma_filter_push(s.last(), tie_class(votes, updated_at));
    }
}

/// No two keys of `s` share an id.
pub open spec fn ids_distinct(s: Seq<RankKey>) -> bool {
    forall|i: int, j: int| 0 <= i < s.len() && 0 <= j < s.len() && i != j ==> s[i].id != s[j].id
}

proof fn lemma_insert_ranked_distinct(s: Seq<RankKey>, k: RankKey)
    requires
        ids_distinct(s),
        forall|i: int| 0 <= i < s.len() ==> (#[trigger] s[i]).id != k.id,
    ensures
        ids_distinct(insert_ranked(s, k)),
        forall|x: RankKey| #[trigger] insert_ranked(s, k).contains(x) ==> x == k || s.contains(x),
    decreases s.len(),
{
    if s.len() == 0 {
        assert(insert_ranked(s, k) =~= seq![k]);
    } else if outranks(k, s[0]) {
        let r = seq![k] + s;
        assert forall|x: RankKey| #[trigger] r.contains(x) implies x == k || s.contains(x) by {
            let q = choose|q: int| 0 <= q < r.len() && r[q] == x;
            if q > 0 {
                assert(s[q - 1] == x);
            }
        }
        assert forall|i: int, j: int| 0 <= i < r.len() && 0 <= j < r.len() && i != j implies r[i].id != r[j].id by {
            if i > 0 && j > 0 {
                assert(r[i] == s[i - 1] && r[j] == s[j - 1]);
            } else if i == 0 {
                assert(r[j] == s[j - 1]);
            } else {
                assert(r[i] == s[i - 1]);
            }
        }
    } else {
        let t = s.drop_first();
        assert forall|i: int| 0 <= i < t.len() implies (#[trigger] t[i]).id != k.id by {
            assert(t[i] == s[i + 1]);
        }
        assert(ids_distinct(t)) by {
            assert forall|i: int, j: int| 0 <= i < t.len() && 0 <= j < t.len() && i != j implies t[i].id != t[j].id by {
                assert(t[i] == s[i + 1] && t[j] == s[j + 1]);
            }
        }
        lemma_insert_ranked_distinct(t, k);
        let it = insert_ranked(t, k);
        let r = seq![s[0]] + it;
        assert forall|x: RankKey| #[trigger] r.contains(x) implies x == k || s.contains(x) by {
            let q = choose|q: int| 0 <= q < r.len() && r[q] == x;
            if q > 0 {
                assert(it[q - 1] == x);
                assert(it.contains(x));
                if x != k {
                    let w = choose|w: int| 0 <= w < t.len() && t[w] == x;
                    assert(s[w + 1] == x);
                }
            } else {
                assert(s[0] == x);
            }
        }
        assert forall|j: int| 0 <= j < it.len() implies (#[trigger] it[j]).id != s[0].id by {
            assert(it.contains(it[j]));
            if it[j] != k {
                let w = choose|w: int| 0 <= w < t.len() && t[w] == it[j];
                assert(s[w + 1] == it[j]);
            }
        }
        assert forall|i: int, j: int| 0 <= i < r.len() && 0 <= j < r.len() && i != j implies r[i].id != r[j].id by {
            if i > 0 && j > 0 {
                assert(r[i] == it[i - 1] && r[j] == it[j - 1]);
            } else if i == 0 {
                assert(r[j] == it[j - 1]);
            } else {
                assert(r[i] == it[i - 1]);
            }
        }
    }
}

/// Ranking keeps keys with distinct ids distinct, and adds no key.
pub proof fn lemma_ranked_distinct(s: Seq<RankKey>)
    requires
        ids_distinct(s),
    ensures
        ids_distinct(ranked(s)),
        forall|x: RankKey| #[trigger] ranked(s).contains(x) ==> s.contains(x),
    decreases s.len(),
{
    if s.len() > 0 {
        let t = s.drop_last();
        assert(ids_distinct(t)) by {
            assert forall|i: int, j: int| 0 <= i < t.len() && 0 <= j < t.len() && i != j implies t[i].id != t[j].id by {
                assert(t[i] == s[i] && t[j] == s[j]);
            }
        }
        lemma_ranked_distinct(t);
        let rt = ranked(t);
        assert forall|i: int| 0 <= i < rt.len() implies (#[trigger] rt[i]).id != s.last().id by {
            assert(rt.contains(rt[i]));
            let w = choose|w: int| 0 <= w < t.len() && t[w] == rt[i];
            assert(s[w] == rt[i]);
            assert(s[s.len() - 1] == s.last());
        }
        lemma_insert_ranked_distinct(rt, s.last());
        assert forall|x: RankKey| #[trigger] ranked(s).contains(x) implies s.contains(x) by {
            if x == s.last() {
                assert(s[s.len() - 1] == x);
            } else {
                assert(rt.contains(x));
                let w = choose|w: int| 0 <= w < t.len() && t[w] == x;
                assert(s[w] == x);
            }
        }
    }
}

/// Distinct ids give distinct entries in the list of ids.
pub proof fn lemma_ids_of_distinct(s: Seq<RankKey>)
    requires
        ids_distinct(s),
    ensures
        ids_of(s).no_duplicates(),
{
    assert forall|i: int, j: int| 0 <= i < ids_of(s).len() && 0 <= j < ids_of(s).len() && i != j
        implies ids_of(s)[i] != ids_of(s)[j] by {
        assert(ids_of(s)[i] == s[i].id && ids_of(s)[j] == s[j].id);
    }
}

/// The keys of a store whose topic ids are distinct have distinct ids.
pub proof fn lemma_keys_distinct(ts: Seq<TopicView>, g: u64, st: TopicStatus)
    requires
        forall|i: int, j: int| 0 <= i < ts.len() && 0 <= j < ts.len() && i != j ==> ts[i].id != ts[j].id,
    ensures
        ids_distinct(keys_of(ts, g, st)),
        forall|i: int| 0 <= i < keys_of(ts, g, st).len() ==> exists|k: int| 0 <= k < ts.len() && ts[k].id == (#[trigger] keys_of(ts, g, st)[i]).id,
    decreases ts.len(),
{
    if ts.len() > 0 {
        let t = ts.drop_last();
        lemma_keys_distinct(t, g, st);
        let kt = keys_of(t, g, st);
        assert forall|i: int| 0 <= i < kt.len() implies (#[trigger] kt[i]).id != ts.last().id by {
            let k = choose|k: int| 0 <= k < t.len() && t[k].id == kt[i].id;
            assert(ts[k] == t[k]);
            assert(ts[ts.len() - 1] == ts.last());
        }
        assert forall|i: int| 0 <= i < keys_of(ts, g, st).len() implies exists|k: int| 0 <= k < ts.len() && ts[k].id == (#[trigger] keys_of(ts, g, st)[i]).id by {
            if i < kt.len() {
                assert(keys_of(ts, g, st)[i] == kt[i]);
                let k = choose|k: int| 0 <= k < t.len() && t[k].id == kt[i].id;
                assert(ts[k] == t[k]);
            } else {
                assert(ts[ts.len() - 1].id == keys_of(ts, g, st)[i].id);
            }
        }
    }
}

} // verus!
