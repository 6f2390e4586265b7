use guildhub::events::{relay_guild_events, relay_topic_events, Broadcast, Event, GuildEvent};
use guildhub::topics::TopicEvent;

fn order(ids: &[u64]) -> TopicEvent {
    TopicEvent::OrderChange(1, ids.to_vec())
}

fn ids_of(e: Option<TopicEvent>) -> Vec<u64> {
    match e {
        Some(TopicEvent::OrderChange(_, ids)) => ids,
        _ => panic!("expected an order change"),
    }
}

#[test]
fn subscriber_sees_only_later_events() {
    let mut ch: Broadcast<TopicEvent> = Broadcast::new(50);
    ch.publish(order(&[1]));
    let sub = ch.subscribe();
    assert!(ch.try_recv(sub).is_none());
    ch.publish(order(&[2]));
    assert_eq!(ids_of(ch.try_recv(sub)), vec![2]);
    assert!(ch.try_recv(sub).is_none());
}

#[test]
fn slow_subscriber_loses_the_oldest_events() {
    let mut ch: Broadcast<TopicEvent> = Broadcast::new(2);
    let sub = ch.subscribe();
    ch.publish(order(&[1]));
    ch.publish(order(&[2]));
    ch.publish(order(&[3]));
    assert_eq!(ids_of(ch.try_recv(sub)), vec![2]);
    assert_eq!(ids_of(ch.try_recv(sub)), vec![3]);
    assert!(ch.try_recv(sub).is_none());
}

#[test]
fn publish_without_subscribers_is_fine() {
    let mut ch: Broadcast<TopicEvent> = Broadcast::new(1);
    ch.publish(order(&[1]));
    assert!(ch.try_recv(0).is_none());
}

#[test]
fn every_subscriber_gets_its_own_copy() {
    let mut ch: Broadcast<TopicEvent> = Broadcast::new(4);
    let a = ch.subscribe();
    let b = ch.subscribe();
    ch.publish(order(&[9]));
    assert_eq!(ids_of(ch.try_recv(a)), vec![9]);
    assert_eq!(ids_of(ch.try_recv(b)), vec![9]);
}

#[test]
fn unsubscribed_reader_gets_nothing() {
    let mut ch: Broadcast<TopicEvent> = Broadcast::new(4);
    let a = ch.subscribe();
    ch.unsubscribe(a);
    ch.publish(order(&[9]));
    assert!(ch.try_recv(a).is_none());
}

#[test]
fn relay_tags_and_keeps_order() {
    let mut topics: Broadcast<TopicEvent> = Broadcast::new(50);
    let mut guilds: Broadcast<GuildEvent> = Broadcast::new(50);
    let mut app: Broadcast<Event> = Broadcast::new(10);
    let ts = topics.subscribe();
    let gs = guilds.subscribe();
    let session = app.subscribe();
    topics.publish(order(&[1]));
    guilds.publish(GuildEvent::Delete(4));
    topics.publish(order(&[2]));
    relay_guild_events(&mut guilds, gs, &mut app);
    relay_topic_events(&mut topics, ts, &mut app);
    assert!(matches!(app.try_recv(session), Some(Event::Guild(GuildEvent::Delete(4)))));
    assert!(matches!(app.try_recv(session), Some(Event::Topic(TopicEvent::OrderChange(_, ids))) if ids == vec![1]));
    assert!(matches!(app.try_recv(session), Some(Event::Topic(TopicEvent::OrderChange(_, ids))) if ids == vec![2]));
    assert!(app.try_recv(session).is_none());
    assert!(topics.try_recv(ts).is_none());
}
