use guildhub::events::{Event, Guild, GuildEvent};
use guildhub::member::Member;
use guildhub::session::{Frame, Session};
use guildhub::topic::{Topic, TopicStatus};
use guildhub::topics::TopicEvent;

fn topic(id: u64, guild_id: u64) -> Topic {
    Topic {
        id,
        guild_id,
        text: "t".to_string(),
        status: TopicStatus::Created,
        will_be_presented_by_the_creator: false,
        created_by_user_id: 1,
        upvoted_by_users_ids: vec![],
        updated_at: 0,
        created_at: 0,
    }
}

fn guild(id: u64) -> Guild {
    Guild {
        id,
        name: "g".to_string(),
        members: vec![],
        topics_count: 0,
        created_by_user: Member::default(),
        updated_at: 0,
        created_at: 0,
    }
}

#[test]
fn quiet_session_pings_before_any_event() {
    let mut s = Session::open(7, 0);
    assert!(s.on_tick(0));
    assert!(!s.on_tick(4_999));
    assert!(s.on_tick(5_000));
    assert!(!s.on_tick(6_000));
}

#[test]
fn write_failure_ends_the_heartbeat() {
    let mut s = Session::open(7, 0);
    s.on_write_failed();
    assert!(!s.open);
    assert!(!s.on_tick(10_000));
}

#[test]
fn frames_are_filtered_by_guild() {
    let s = Session::open(7, 0);
    assert!(matches!(s.frame_for(&Event::Topic(TopicEvent::Update(topic(3, 7)))), Some(Frame::TopicUpdated(3))));
    assert!(s.frame_for(&Event::Topic(TopicEvent::Update(topic(3, 8)))).is_none());
    assert!(matches!(s.frame_for(&Event::Topic(TopicEvent::Delete(topic(4, 7)))), Some(Frame::TopicDeleted(4))));
    assert!(matches!(s.frame_for(&Event::Topic(TopicEvent::Create(topic(5, 7)))), Some(Frame::TopicCreated(t)) if t.id == 5));
    assert!(matches!(s.frame_for(&Event::Guild(GuildEvent::Update(guild(7)))), Some(Frame::GuildUpdated)));
    assert!(s.frame_for(&Event::Guild(GuildEvent::Update(guild(8)))).is_none());
    assert!(s.frame_for(&Event::Guild(GuildEvent::Delete(7))).is_none());
    assert!(s.frame_for(&Event::Topic(TopicEvent::StatusChange(topic(3, 7)))).is_none());
    assert!(matches!(s.frame_for(&Event::Topic(TopicEvent::OrderChange(7, vec![2, 1]))), Some(Frame::OrderChanged(ids)) if ids == vec![2, 1]));
    assert!(s.frame_for(&Event::Topic(TopicEvent::OrderChange(8, vec![2, 1]))).is_none());
}

#[test]
fn frame_names_on_the_wire() {
    assert_eq!(Frame::Ping.event_name(), "ping");
    assert_eq!(Frame::GuildUpdated.event_name(), "guild-updated");
    assert_eq!(Frame::TopicUpdated(305).event_name(), "topic-updated-305");
    assert_eq!(Frame::TopicDeleted(0).event_name(), "topic-deleted-0");
    assert_eq!(Frame::TopicCreated(topic(1, 1)).event_name(), "topic-created");
    assert_eq!(Frame::OrderChanged(vec![]).event_name(), "topics-order-changed");
}

#[test]
fn frame_payloads() {
    assert_eq!(Frame::Ping.data().unwrap(), "ping");
    assert_eq!(Frame::OrderChanged(vec![12, 3]).data().unwrap(), "[12,3]");
    assert_eq!(Frame::OrderChanged(vec![]).data().unwrap(), "[]");
    assert_eq!(Frame::TopicUpdated(1).data().unwrap(), " ");
}
