use guildhub::directory::GitlabService;
use guildhub::member::Member;
use guildhub::topic::TopicStatus;
use guildhub::topics::{
    has_more_topics, PaginationParameters, TopicError, TopicEvent, TopicFormDTO, TopicsService,
};

const TEN_AM: u64 = 36_000_000;

fn people() -> GitlabService {
    let mut dir = GitlabService::new(600);
    for id in [1, 2, 5, 42, 100] {
        dir.insert_member_into_cache(Member { id, username: format!("u{id}"), name: String::new(), avatar_url: String::new() });
    }
    dir
}
const TEN_OH_FIVE: u64 = 36_300_000;

fn form(text: &str) -> TopicFormDTO {
    TopicFormDTO { text: text.to_string(), will_be_presented_by_the_creator: Some(true) }
}

fn engine_with_two_topics() -> (TopicsService, u64, u64) {
    let mut svc = TopicsService::new();
    let t1 = svc.create_topic(form("first"), 7, 100, TEN_AM).unwrap().id;
    let t2 = svc.create_topic(form("second"), 7, 100, TEN_OH_FIVE).unwrap().id;
    svc.take_events();
    (svc, t1, t2)
}

#[test]
fn order_breaks_vote_ties_by_latest_update() {
    let (mut svc, t1, t2) = engine_with_two_topics();
    svc.upvote_topic(7, t1, 1).unwrap();
    svc.upvote_topic(7, t1, 2).unwrap();
    svc.upvote_topic(7, t2, 3).unwrap();
    svc.upvote_topic(7, t2, 4).unwrap();
    assert_eq!(svc.get_topic_ids_sorted(7), vec![t2, t1]);
}

#[test]
fn order_puts_more_votes_first() {
    let (mut svc, t1, t2) = engine_with_two_topics();
    svc.upvote_topic(7, t1, 1).unwrap();
    assert_eq!(svc.get_topic_ids_sorted(7), vec![t1, t2]);
}

#[test]
fn order_is_the_same_when_computed_twice() {
    let (mut svc, t1, _t2) = engine_with_two_topics();
    svc.upvote_topic(7, t1, 1).unwrap();
    let a = svc.get_topic_ids_sorted(7);
    let b = svc.get_topic_ids_sorted(7);
    assert_eq!(a, b);
}

#[test]
fn order_leaves_out_archived_topics_and_other_guilds() {
    let (mut svc, t1, t2) = engine_with_two_topics();
    let other = svc.create_topic(form("elsewhere"), 8, 100, TEN_AM).unwrap().id;
    svc.change_topic_status(t1, 100, 0, TopicStatus::Archived, TEN_OH_FIVE).unwrap();
    assert_eq!(svc.get_topic_ids_sorted(7), vec![t2]);
    assert_eq!(svc.get_topic_ids_sorted(8), vec![other]);
}

#[test]
fn second_upvote_moves_the_vote_and_publishes_in_order() {
    let (mut svc, t1, t2) = engine_with_two_topics();
    let first = svc.upvote_topic(7, t1, 42).unwrap();
    assert!(first.previously_voted.is_none());
    svc.take_events();
    let second = svc.upvote_topic(7, t2, 42).unwrap();
    assert_eq!(second.previously_voted.as_ref().unwrap().id, t1);
    assert_eq!(svc.get_topic(t1).unwrap().upvoted_by_users_ids.len(), 0);
    assert_eq!(svc.get_topic(t2).unwrap().upvoted_by_users_ids, vec![42]);
    let events = svc.take_events();
    assert_eq!(events.len(), 3);
    match &events[0] {
        TopicEvent::Update(t) => assert_eq!(t.id, t1),
        _ => panic!("expected an update of the first topic"),
    }
    match &events[1] {
        TopicEvent::Update(t) => {
            assert_eq!(t.id, t2);
            assert_eq!(t.upvoted_by_users_ids, vec![42]);
        }
        _ => panic!("expected an update of the second topic"),
    }
    match &events[2] {
        TopicEvent::OrderChange(g, ids) => {
            assert_eq!(*g, 7);
            assert_eq!(ids, &vec![t2, t1]);
        }
        _ => panic!("expected the new order"),
    }
}

#[test]
fn repeated_upvote_is_idempotent_but_not_silent() {
    let (mut svc, t1, _t2) = engine_with_two_topics();
    svc.upvote_topic(7, t1, 42).unwrap();
    svc.take_events();
    let again = svc.upvote_topic(7, t1, 42).unwrap();
    assert_eq!(again.previously_voted.unwrap().id, t1);
    assert_eq!(svc.get_topic(t1).unwrap().upvoted_by_users_ids, vec![42]);
    assert_eq!(svc.take_events().len(), 3);
}

#[test]
fn many_upvotes_leave_one_active_vote_per_guild() {
    let (mut svc, t1, t2) = engine_with_two_topics();
    let t3 = svc.create_topic(form("third"), 7, 5, TEN_AM).unwrap().id;
    for id in [t1, t2, t3, t1, t3, t2] {
        svc.upvote_topic(7, id, 9).unwrap();
    }
    let holders: Vec<u64> = [t1, t2, t3]
        .iter()
        .copied()
        .filter(|id| svc.get_topic(*id).unwrap().upvoted_by_users_ids.contains(&9))
        .collect();
    assert_eq!(holders, vec![t2]);
}

#[test]
fn upvote_in_the_wrong_guild_is_not_found() {
    let (mut svc, t1, _t2) = engine_with_two_topics();
    svc.take_events();
    assert!(matches!(svc.upvote_topic(8, t1, 1), Err(TopicError::NotFound)));
    assert!(matches!(svc.upvote_topic(7, 999, 1), Err(TopicError::NotFound)));
    assert_eq!(svc.take_events().len(), 0);
}

#[test]
fn remove_vote_without_a_vote_still_publishes() {
    let (mut svc, t1, _t2) = engine_with_two_topics();
    let t = svc.remove_vote_from_topic(7, t1, 42).unwrap();
    assert_eq!(t.id, t1);
    let events = svc.take_events();
    assert_eq!(events.len(), 2);
    assert!(matches!(events[1], TopicEvent::OrderChange(..)));
}

#[test]
fn remove_vote_takes_the_vote_back() {
    let (mut svc, t1, _t2) = engine_with_two_topics();
    svc.upvote_topic(7, t1, 42).unwrap();
    svc.remove_vote_from_topic(7, t1, 42).unwrap();
    assert!(svc.get_topic(t1).unwrap().upvoted_by_users_ids.is_empty());
}

#[test]
fn create_topic_publishes_create_then_order() {
    let mut svc = TopicsService::new();
    let t = svc.create_topic(form("hello"), 3, 11, TEN_AM).unwrap();
    assert_eq!(t.status, TopicStatus::Created);
    assert!(t.will_be_presented_by_the_creator);
    assert_eq!(t.created_by_user_id, 11);
    assert_eq!(t.created_at, TEN_AM);
    let events = svc.take_events();
    assert!(matches!(&events[0], TopicEvent::Create(c) if c.id == t.id));
    assert!(matches!(&events[1], TopicEvent::OrderChange(3, ids) if ids == &vec![t.id]));
}

#[test]
fn presenter_flag_needs_an_explicit_yes() {
    let mut svc = TopicsService::new();
    let f = TopicFormDTO { text: "x y".to_string(), will_be_presented_by_the_creator: None };
    assert!(!svc.create_topic(f, 1, 1, 0).unwrap().will_be_presented_by_the_creator);
}

#[test]
fn edit_clears_votes() {
    let (mut svc, t1, _t2) = engine_with_two_topics();
    svc.upvote_topic(7, t1, 42).unwrap();
    let edited = svc.update_topic(form("rewritten"), t1, 100, 0, TEN_OH_FIVE + 1).unwrap();
    assert_eq!(edited.text, "rewritten");
    assert!(edited.upvoted_by_users_ids.is_empty());
    assert_eq!(edited.updated_at, TEN_OH_FIVE + 1);
}

#[test]
fn status_change_clears_votes_both_ways() {
    let (mut svc, t1, _t2) = engine_with_two_topics();
    svc.upvote_topic(7, t1, 42).unwrap();
    svc.take_events();
    let archived = svc.change_topic_status(t1, 100, 0, TopicStatus::Archived, 1).unwrap();
    assert!(archived.upvoted_by_users_ids.is_empty());
    let events = svc.take_events();
    assert_eq!(events.len(), 1);
    assert!(matches!(events[0], TopicEvent::StatusChange(_)));
    let back = svc.change_topic_status(t1, 100, 0, TopicStatus::Created, 2).unwrap();
    assert_eq!(back.status, TopicStatus::Created);
    let events = svc.take_events();
    assert_eq!(events.len(), 2);
    assert!(matches!(events[1], TopicEvent::OrderChange(..)));
}

#[test]
fn status_change_to_the_same_status_does_nothing() {
    let (mut svc, t1, _t2) = engine_with_two_topics();
    svc.upvote_topic(7, t1, 42).unwrap();
    svc.take_events();
    let same = svc.change_topic_status(t1, 100, 0, TopicStatus::Created, 5).unwrap();
    assert_eq!(same.upvoted_by_users_ids, vec![42]);
    assert!(svc.take_events().is_empty());
}

#[test]
fn only_the_creator_or_owner_deletes() {
    let (mut svc, t1, t2) = engine_with_two_topics();
    assert!(matches!(svc.delete_topic(t1, 55, 66, &people()), Err(TopicError::Forbidden)));
    assert!(svc.get_topic(t1).is_some());
    assert!(svc.take_events().is_empty());
    let gone = svc.delete_topic(t1, 100, 66, &people()).unwrap();
    assert_eq!(gone.id, t1);
    assert!(svc.get_topic(t1).is_none());
    assert!(matches!(&svc.take_events()[0], TopicEvent::Delete(t) if t.id == t1));
    svc.delete_topic(t2, 66, 66, &people()).unwrap();
    assert!(svc.get_topic(t2).is_none());
    assert!(matches!(svc.delete_topic(t1, 100, 66, &people()), Err(TopicError::NotFound)));
}

#[test]
fn archived_topics_take_no_votes() {
    let (mut svc, t1, _t2) = engine_with_two_topics();
    svc.change_topic_status(t1, 100, 0, TopicStatus::Archived, 1).unwrap();
    svc.take_events();
    assert!(matches!(svc.upvote_topic(7, t1, 42), Err(TopicError::Archived)));
    assert!(svc.take_events().is_empty());
    let t = svc.remove_vote_from_topic(7, t1, 42).unwrap();
    assert!(!t.upvoted_by_users_ids.contains(&42));
}

#[test]
fn pages_follow_the_ranking() {
    let (mut svc, t1, t2) = engine_with_two_topics();
    let t3 = svc.create_topic(form("third"), 7, 5, TEN_AM + 1).unwrap().id;
    svc.upvote_topic(7, t1, 1).unwrap();
    let first = svc.get_topics_by_guild_id(7, PaginationParameters { limit: 2, skip: 0 }, TopicStatus::Created);
    assert_eq!(first.iter().map(|t| t.id).collect::<Vec<_>>(), vec![t1, t2]);
    assert!(has_more_topics(&first, 2));
    let second = svc.get_topics_by_guild_id(7, PaginationParameters { limit: 2, skip: 2 }, TopicStatus::Created);
    assert_eq!(second.iter().map(|t| t.id).collect::<Vec<_>>(), vec![t3]);
    assert!(!has_more_topics(&second, 2));
    let none = svc.get_topics_by_guild_id(7, PaginationParameters { limit: 2, skip: 9 }, TopicStatus::Created);
    assert!(none.is_empty());
}

#[test]
fn full_last_page_still_claims_more() {
    let (svc, _t1, _t2) = engine_with_two_topics();
    let page = svc.get_topics_by_guild_id(7, PaginationParameters { limit: 2, skip: 0 }, TopicStatus::Created);
    assert_eq!(page.len(), 2);
    assert!(has_more_topics(&page, 2));
}

#[test]
fn page_window_from_page_number() {
    let p = PaginationParameters::for_page(3, 10);
    assert_eq!(p.skip, 20);
    assert_eq!(p.limit, 10);
}

#[test]
fn counts_topics_per_guild() {
    let (mut svc, _t1, _t2) = engine_with_two_topics();
    svc.create_topic(form("elsewhere"), 8, 1, 0).unwrap();
    assert_eq!(svc.get_topics_count_by_guild_ids(&vec![7, 8, 9]), vec![2, 1, 0]);
}

#[test]
fn upvote_for_an_unknown_topic_still_takes_the_vote_back() {
    let (mut svc, t1, _t2) = engine_with_two_topics();
    svc.upvote_topic(7, t1, 42).unwrap();
    svc.take_events();
    assert!(matches!(svc.upvote_topic(7, 999, 42), Err(TopicError::NotFound)));
    assert!(svc.get_topic(t1).unwrap().upvoted_by_users_ids.is_empty());
    let events = svc.take_events();
    assert_eq!(events.len(), 1);
    assert!(matches!(&events[0], TopicEvent::Update(t) if t.id == t1));
}

#[test]
fn only_creator_or_owner_edits_and_moves() {
    let (mut svc, t1, _t2) = engine_with_two_topics();
    assert!(matches!(svc.update_topic(form("nope"), t1, 5, 6, 1), Err(TopicError::Forbidden)));
    assert!(matches!(svc.change_topic_status(t1, 5, 6, TopicStatus::Archived, 1), Err(TopicError::Forbidden)));
    assert_eq!(svc.update_topic(form("owner edit"), t1, 6, 6, 1).unwrap().text, "owner edit");
    assert!(svc.take_events().len() == 2);
}

#[test]
fn deleting_needs_the_people_in_the_directory() {
    let (mut svc, t1, _t2) = engine_with_two_topics();
    svc.upvote_topic(7, t1, 77).unwrap();
    svc.take_events();
    let refused = svc.delete_topic(t1, 100, 0, &people());
    assert!(matches!(refused, Err(TopicError::Consistency(_))));
    assert!(svc.get_topic(t1).is_some());
    assert!(svc.take_events().is_empty());
}
