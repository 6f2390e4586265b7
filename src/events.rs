use vstd::prelude::*;

use crate::member::Member;
use crate::topics::{TopicEvent, TopicEventView};

verus! {

/// A value that can be copied out to several readers without changing what
/// it stands for.
pub trait Snapshot: View + Sized {
    fn snapshot(&self) -> (r: Self)
        ensures
            r@ == self@;
}

impl Snapshot for TopicEvent {
    fn snapshot(&self) -> (r: Self) {
        self.clone()
    }
}

/// A team space, as shown to a viewer.
pub struct Guild {
    pub id: u64,
    pub name: String,
    pub members: Vec<Member>,
    pub topics_count: usize,
    pub created_by_user: Member,
    pub updated_at: u64,
    pub created_at: u64,
}

pub struct GuildView {
    pub id: u64,
    pub name: Seq<char>,
    pub members: Seq<Member>,
    pub topics_count: usize,
    pub created_by_user: Member,
    pub updated_at: u64,
    pub created_at: u64,
}

impl View for Guild {
    type V = GuildView;

    open spec fn view(&self) -> GuildView {
        GuildView {
            id: self.id,
            name: self.name@,
            members: self.members@,
            topics_count: self.topics_count,
            created_by_user: self.created_by_user,
            updated_at: self.updated_at,
            created_at: self.created_at,
        }
    }
}

fn clone_members(ms: &Vec<Member>) -> (r: Vec<Member>)
    ensures
        r@ == ms@,
{
    let mut r: Vec<Member> = Vec::new();
    let mut i: usize = 0;
    while i < ms.len()
        invariant
            i <= ms@.len(),
            r@ == ms@.take(i as int),
        decreases ms@.len() - i,
    {
        r.push(ms[i].clone());
        assert(r@ =~= ms@.take(i as int + 1));
        i += 1;
    }
    assert(ms@.take(ms@.len() as int) =~= ms@);
    r
}

impl Clone for Guild {
    fn clone(&self) -> (r: Guild)
        ensures
            r@ == self@,
    {
        Guild {
            id: self.id,
            name: self.name.clone(),
            members: clone_members(&self.members),
            topics_count: self.topics_count,
            created_by_user: self.created_by_user.clone(),
            updated_at: self.updated_at,
            created_at: self.created_at,
        }
    }
}

/// A change to a guild aggregate.
pub enum GuildEvent {
    Create(Guild),
    Update(Guild),
    Delete(u64),
}

pub enum GuildEventView {
    Create(GuildView),
    Update(GuildView),
    Delete(u64),
}

impl View for GuildEvent {
    type V = GuildEventView;

    open spec fn view(&self) -> GuildEventView {
        match self {
            GuildEvent::Create(g) => GuildEventView::Create(g@),
            GuildEvent::Update(g) => GuildEventView::Update(g@),
            GuildEvent::Delete(id) => GuildEventView::Delete(*id),
        }
    }
}

impl Snapshot for GuildEvent {
    fn snapshot(&self) -> (r: Self) {
        match self {
            GuildEvent::Create(g) => GuildEvent::Create(g.clone()),
            GuildEvent::Update(g) => GuildEvent::Update(g.clone()),
            GuildEvent::Delete(id) => GuildEvent::Delete(*id),
        }
    }
}

/// The application-wide event: one of either aggregate's events, tagged
/// with its kind where the two streams meet.
pub enum Event {
    Topic(TopicEvent),
    Guild(GuildEvent),
}

pub enum EventView {
    Topic(TopicEventView),
    Guild(GuildEventView),
}

impl View for Event {
    type V = EventView;

    open spec fn view(&self) -> EventView {
        match self {
            Event::Topic(e) => EventView::Topic(e@),
            Event::Guild(e) => EventView::Guild(e@),
        }
    }
}

impl Snapshot for Event {
    fn snapshot(&self) -> (r: Self) {
        match self {
            Event::Topic(e) => Event::Topic(e.clone()),
            Event::Guild(e) => Event::Guild(e.snapshot()),
        }
    }
}

impl TopicEvent {
    /// Tags a topic event for the application-wide stream.
    pub fn into_event(self) -> (r: Event)
        ensures
            r@ == EventView::Topic(self@),
    {
        Event::Topic(self)
    }
}

impl GuildEvent {
    /// Tags a guild event for the application-wide stream.
    pub fn into_event(self) -> (r: Event)
        ensures
            r@ == EventView::Guild(self@),
    {
        Event::Guild(self)
    }
}

/// A subscriber's queue after one more event: when it is full, its oldest
/// event is dropped to make room.
pub open spec fn bounded_push<V>(q: Seq<V>, e: V, capacity: nat) -> Seq<V> {
    if q.len() < capacity {
        q.push(e)
    } else {
        q.drop_first().push(e)
    }
}

/// The channel after `e` is published.
pub open spec fn after_publish<V>(s: ChannelState<V>, e: V) -> ChannelState<V> {
    ChannelState {
        capacity: s.capacity,
        queues: Seq::new(
            s.queues.len(),
            |i: int|
                match s.queues[i] {
                    Some(q) => Some(bounded_push(q, e, s.capacity)),
                    None => None,
                },
        ),
    }
}

/// The channel after each of `es` is published, in order.
pub open spec fn after_publish_all<V>(s: ChannelState<V>, es: Seq<V>) -> ChannelState<V>
    decreases es.len(),
{
    if es.len() == 0 {
        s
    } else {
        after_publish(after_publish_all(s, es.drop_last()), es.last())
    }
}

/// The unread events of subscriber `id`: none once it has left.
pub open spec fn pending<V>(s: ChannelState<V>, id: usize) -> Seq<V> {
    if id < s.queues.len() {
        match s.queues[id as int] {
            Some(q) => q,
            None => Seq::empty(),
        }
    } else {
        Seq::empty()
    }
}

pub struct ChannelState<V> {
    pub capacity: nat,
    /// Per subscriber: `None` once it has left, else its unread events,
    /// oldest first.
    pub queues: Seq<Option<Seq<V>>>,
}

/// A bounded broadcast channel. Each subscriber reads the events published
/// after it subscribed, in order; one that falls `capacity` events behind
/// loses its oldest unread ones. Publishing never waits and never fails.
pub struct Broadcast<T> {
    capacity: usize,
    queues: Vec<Option<Vec<T>>>,
}

pub open spec fn views_of<T: View>(v: Seq<T>) -> Seq<T::V> {
    v.map_values(|e: T| e@)
}

pub open spec fn queue_view<T: View>(q: Option<Vec<T>>) -> Option<Seq<T::V>> {
    match q {
        Some(v) => Some(views_of(v@)),
        None => None,
    }
}

impl<T: Snapshot> View for Broadcast<T> {
    type V = ChannelState<T::V>;

    closed spec fn view(&self) -> ChannelState<T::V> {
        ChannelState {
            capacity: self.capacity as nat,
            queues: self.queues@.map_values(|q: Option<Vec<T>>| queue_view(q)),
        }
    }
}

impl<T: Snapshot> Broadcast<T> {
    pub closed spec fn wf(&self) -> bool {
        &&& self.capacity > 0
        &&& forall|i: int| 0 <= i < self.queues@.len() ==> (#[trigger] self.queues@[i] matches Some(q) ==> q@.len() <= self.capacity)
    }

    /// A channel with no subscriber whose subscribers each hold at most
    /// `capacity` unread events.
    pub fn new(capacity: usize) -> (r: Broadcast<T>)
        requires
            capacity > 0,
        ensures
            r.wf(),
            r@.capacity == capacity,
            r@.queues.len() == 0,
    {
        Broadcast { capacity, queues: Vec::new() }
    }

    /// A new subscriber, which will see the events published from now on.
    pub fn subscribe(&mut self) -> (r: usize)
        requires
            old(self).wf(),
        ensures
            final(self).wf(),
            r == old(self)@.queues.len(),
            final(self)@.capacity == old(self)@.capacity,
            final(self)@.queues == old(self)@.queues.push(Some(Seq::<T::V>::empty())),
    {
        let r = self.queues.len();
        let q: Vec<T> = Vec::new();
        assert(views_of(q@) =~= Seq::<T::V>::empty());
        self.queues.push(Some(q));
        assert(self@.queues =~= old(self)@.queues.push(Some(Seq::<T::V>::empty())));
        r
    }

    /// Subscriber `id` leaves; its unread events are dropped.
    pub fn unsubscribe(&mut self, id: usize)
        requires
            old(self).wf(),
        ensures
            final(self).wf(),
            final(self)@.capacity == old(self)@.capacity,
            id < old(self)@.queues.len() ==> final(self)@.queues == old(self)@.queues.update(id as int, None),
            id >= old(self)@.queues.len() ==> final(self)@.queues == old(self)@.queues,
    {
        if id < self.queues.len() {
            self.queues.set(id, None);
            assert(self@.queues =~= old(self)@.queues.update(id as int, None));
        }
    }

    /// Hands `event` to every subscriber still there; a full queue drops its
    /// oldest event first.
    pub fn publish(&mut self, event: T)
        requires
            old(self).wf(),
        ensures
            final(self).wf(),
            final(self)@.capacity == old(self)@.capacity,
            final(self)@ == after_publish(old(self)@, event@),
    {
        let ghost old_q = self@.queues;
        assert forall|k: int| 0 <= k < old_q.len() implies #[trigger] queue_view(self.queues@[k]) == old_q[k] by {
            assert(self@.queues[k] == queue_view(self.queues@[k]));
        }
        let mut i: usize = 0;
        while i < self.queues.len()
            invariant
                self.wf(),
                self@.capacity == old(self)@.capacity,
                self@.queues.len() == old_q.len(),
                i <= old_q.len(),
                self.queues@.len() == old_q.len(),
                forall|k: int| 0 <= k < i ==> #[trigger] queue_view(self.queues@[k]) == match old_q[k] {
                    Some(q) => Some(bounded_push(q, event@, old(self)@.capacity)),
                    None => None::<Seq<T::V>>,
                },
                forall|k: int| i <= k < old_q.len() ==> #[trigger] queue_view(self.queues@[k]) == old_q[k],
            decreases old_q.len() - i,
        {
            let mut slot: Option<Vec<T>> = None;
            std::mem::swap(&mut slot, &mut self.queues[i]);
            assert(queue_view(slot) == old_q[i as int]);
            match slot {
                Some(mut q) => {
                    let ghost before = views_of(q@);
                    if q.len() >= self.capacity {
                        q.remove(0);
                        assert(views_of(q@) =~= before.drop_first());
                    }
                    let ghost mid = views_of(q@);
                    q.push(event.snapshot());
                    assert(views_of(q@) =~= mid.push(event@));
                    self.queues.set(i, Some(q));
                },
                None => {
                    self.queues.set(i, None);
                },
            }
            assert(queue_view(self.queues@[i as int]) == match old_q[i as int] {
                Some(q) => Some(bounded_push(q, event@, old(self)@.capacity)),
                None => None::<Seq<T::V>>,
            });
            i += 1;
        }
        assert forall|k: int| 0 <= k < old_q.len() implies #[trigger] self@.queues[k] == match old_q[k] {
            Some(q) => Some(bounded_push(q, event@, old(self)@.capacity)),
            None => None::<Seq<T::V>>,
        } by {
            assert(self@.queues[k] == queue_view(self.queues@[k]));
        }
        assert(self@.queues =~= after_publish(old(self)@, event@).queues);
    }

    /// The oldest unread event of subscriber `id`, if any.
    pub fn try_recv(&mut self, id: usize) -> (r: Option<T>)
        requires
            old(self).wf(),
        ensures
            final(self).wf(),
            final(self)@.capacity == old(self)@.capacity,
            pending(old(self)@, id).len() > 0 ==> {
                &&& r matches Some(e) && e@ == pending(old(self)@, id)[0]
                &&& final(self)@.queues == old(self)@.queues.update(id as int, Some(pending(old(self)@, id).drop_first()))
            },
            pending(old(self)@, id).len() == 0 ==> {
                &&& r is None
                &&& final(self)@.queues == old(self)@.queues
            },
    {
        if id >= self.queues.len() {
            return None;
        }
        let ghost old_q = old(self)@.queues;
        assert(old_q[id as int] == queue_view(self.queues@[id as int]));
        let mut slot: Option<Vec<T>> = None;
        std::mem::swap(&mut slot, &mut self.queues[id]);
        assert(queue_view(slot) == old_q[id as int]);
        match slot {
            Some(mut q) => {
                if q.len() == 0 {
                    self.queues.set(id, Some(q));
                    assert(self@.queues =~= old_q);
                    None
                } else {
                    let ghost before = views_of(q@);
                    let e = q.remove(0);
                    assert(views_of(q@) =~= before.drop_first());
                    self.queues.set(id, Some(q));
                    assert(self@.queues =~= old_q.update(id as int, Some(before.drop_first())));
                    Some(e)
                }
            },
            None => {
                self.queues.set(id, None);
                assert(self@.queues =~= old_q);
                None
            },
        }
    }
}

/// A subscriber sees exactly the events published after it subscribed, in
/// publication order, as long as it keeps within the channel's capacity.
pub proof fn lemma_subscriber_sees_later_events<V>(s: ChannelState<V>, id: usize, es: Seq<V>)
    requires
        id == s.queues.len(),
        es.len() <= s.capacity,
    ensures
        ({
            let joined = ChannelState { capacity: s.capacity, queues: s.queues.push(Some(Seq::<V>::empty())) };
            &&& after_publish_all(joined, es).capacity == s.capacity
            &&& after_publish_all(joined, es).queues.len() == s.queues.len() + 1
            &&& pending(after_publish_all(joined, es), id) == es
        }),
    decreases es.len(),
{
    let joined = ChannelState { capacity: s.capacity, queues: s.queues.push(Some(Seq::<V>::empty())) };
    if es.len() == 0 {
        assert(joined.queues[id as int] == Some(Seq::<V>::empty()));
        assert(pending(joined, id) =~= es);
    } else {
        lemma_subscriber_sees_later_events(s, id, es.drop_last());
        let before = after_publish_all(joined, es.drop_last());
        assert(before.queues[id as int] == Some(es.drop_last()));
        assert(es.drop_last().push(es.last()) =~= es);
    }
}

/// Topic events as they appear on the application-wide stream.
pub open spec fn tag_topic(es: Seq<TopicEventView>) -> Seq<EventView> {
    es.map_values(|e: TopicEventView| EventView::Topic(e))
}

/// Guild events as they appear on the application-wide stream.
pub open spec fn tag_guild(es: Seq<GuildEventView>) -> Seq<EventView> {
    es.map_values(|e: GuildEventView| EventView::Guild(e))
}

/// Forwards, in order, every event that subscriber `sub` of the topic
/// channel has not read yet onto the application-wide channel, tagged as a
/// topic event.
pub fn relay_topic_events(from: &mut Broadcast<TopicEvent>, sub: usize, to: &mut Broadcast<Event>)
    requires
        old(from).wf(),
        old(to).wf(),
    ensures
        final(from).wf(),
        final(to).wf(),
        pending(final(from)@, sub).len() == 0,
        final(to)@ == after_publish_all(old(to)@, tag_topic(pending(old(from)@, sub))),
{
    let ghost unread = pending(from@, sub);
    let ghost start = to@;
    let ghost mut k: int = 0;
    loop
        invariant
            from.wf(),
            to.wf(),
            0 <= k <= unread.len(),
            unread == pending(old(from)@, sub),
            start == old(to)@,
            pending(from@, sub) == unread.skip(k),
            to@ == after_publish_all(start, tag_topic(unread.take(k))),
        decreases unread.len() - k,
    {
        match from.try_recv(sub) {
            Some(e) => {
                proof {
                    assert(tag_topic(unread.take(k + 1)).drop_last() =~= tag_topic(unread.take(k)));
                    assert(unread.skip(k)[0] == unread[k]);
                    assert(e@ == unread[k]);
                    assert(tag_topic(unread.take(k + 1)).last() == EventView::Topic(unread[k]));
                }
                to.publish(e.into_event());
                proof {
                    assert(pending(from@, sub) =~= unread.skip(k + 1));
                    k = k + 1;
                }
            },
            None => {
                assert(unread.skip(k).len() == 0);
                assert(k == unread.len());
                assert(unread.take(k) =~= unread);
                return;
            },
        }
    }
}

/// Forwards, in order, every event that subscriber `sub` of the guild
/// channel has not read yet onto the application-wide channel, tagged as a
/// guild event.
pub fn relay_guild_events(from: &mut Broadcast<GuildEvent>, sub: usize, to: &mut Broadcast<Event>)
    requires
        old(from).wf(),
        old(to).wf(),
    ensures
        final(from).wf(),
        final(to).wf(),
        pending(final(from)@, sub).len() == 0,
        final(to)@ == after_publish_all(old(to)@, tag_guild(pending(old(from)@, sub))),
{
    let ghost unread = pending(from@, sub);
    let ghost start = to@;
    let ghost mut k: int = 0;
    loop
        invariant
            from.wf(),
            to.wf(),
            0 <= k <= unread.len(),
            unread == pending(old(from)@, sub),
            start == old(to)@,
            pending(from@, sub) == unread.skip(k),
            to@ == after_publish_all(start, tag_guild(unread.take(k))),
        decreases unread.len() - k,
    {
        match from.try_recv(sub) {
            Some(e) => {
                proof {
                    assert(tag_guild(unread.take(k + 1)).drop_last() =~= tag_guild(unread.take(k)));
                    assert(unread.skip(k)[0] == unread[k]);
                    assert(e@ == unread[k]);
                    assert(tag_guild(unread.take(k + 1)).last() == EventView::Guild(unread[k]));
                }
                to.publish(e.into_event());
                proof {
                    assert(pending(from@, sub) =~= unread.skip(k + 1));
                    k = k + 1;
                }
            },
            None => {
                assert(unread.skip(k).len() == 0);
                assert(k == unread.len());
                assert(unread.take(k) =~= unread);
                return;
            },
        }
    }
}

} // verus!
