use guildhub::directory::GitlabService;
use guildhub::member::Member;
use guildhub::personalize::{collect_member_ids, map_topic_with_user, personalize_topics, ConsistencyError};
use guildhub::topic::{Topic, TopicStatus};
use guildhub::topics::{PaginationParameters, TopicFormDTO, TopicsService};

fn member(id: u64) -> Member {
    Member { id, username: format!("u{id}"), name: String::new(), avatar_url: String::new() }
}

fn topic(creator: u64, voters: Vec<u64>) -> Topic {
    Topic {
        id: 1,
        guild_id: 1,
        text: "t".to_string(),
        status: TopicStatus::Archived,
        will_be_presented_by_the_creator: true,
        created_by_user_id: creator,
        upvoted_by_users_ids: voters,
        updated_at: 3,
        created_at: 2,
    }
}

#[test]
fn personalizes_for_the_viewer() {
    let members = vec![member(1), member(2), member(3)];
    let p = map_topic_with_user(&topic(1, vec![3, 2]), &members, 9, 2).unwrap();
    assert_eq!(p.created_by_user.id, 1);
    assert_eq!(p.upvoted_by_users.iter().map(|m| m.id).collect::<Vec<_>>(), vec![3, 2]);
    assert!(p.is_upvoted_by_current_user);
    assert!(p.is_status_archived);
    assert!(!p.can_edit && !p.can_delete && !p.can_change_status);
    let owner_view = map_topic_with_user(&topic(1, vec![]), &members, 9, 9).unwrap();
    assert!(owner_view.can_edit && owner_view.can_delete && owner_view.can_change_status);
    let creator_view = map_topic_with_user(&topic(1, vec![]), &members, 9, 1).unwrap();
    assert!(creator_view.can_edit && creator_view.can_delete && !creator_view.can_change_status);
}

#[test]
fn any_unresolved_person_fails_the_topic() {
    let members = vec![member(1), member(2)];
    assert!(matches!(map_topic_with_user(&topic(5, vec![]), &members, 9, 2), Err(ConsistencyError::MissingCreator(5))));
    assert!(matches!(map_topic_with_user(&topic(1, vec![2, 7]), &members, 9, 2), Err(ConsistencyError::MissingUpvoter(7))));
    assert!(personalize_topics(&vec![topic(1, vec![]), topic(1, vec![8])], &members, 9, 2).is_err());
}

#[test]
fn member_ids_are_collected_once() {
    let ids = collect_member_ids(&vec![topic(1, vec![2, 3]), topic(2, vec![1, 4])]);
    assert_eq!(ids, vec![1, 2, 3, 4]);
}

#[test]
fn personalized_page_comes_from_the_directory() {
    let mut dir = GitlabService::new(600);
    dir.refresh_members_cache(Ok(vec![member(1), member(2)])).unwrap();
    let mut svc = TopicsService::new();
    let form = TopicFormDTO { text: "hello".to_string(), will_be_presented_by_the_creator: None };
    let t = svc.create_topic(form, 4, 1, 0).unwrap();
    svc.upvote_topic(4, t.id, 2).unwrap();
    let page = svc
        .get_personalized_topics(&dir, 4, 1, 2, PaginationParameters { limit: 10, skip: 0 }, TopicStatus::Created)
        .unwrap();
    assert_eq!(page.len(), 1);
    assert_eq!(page[0].upvoted_by_users[0].id, 2);
    assert!(page[0].is_upvoted_by_current_user);
    let empty_dir = GitlabService::new(600);
    assert!(svc
        .get_personalized_topics(&empty_dir, 4, 1, 2, PaginationParameters { limit: 10, skip: 0 }, TopicStatus::Created)
        .is_err());
}

#[test]
fn personalized_topic_turns_back_into_ids() {
    let members = vec![member(1), member(2), member(3)];
    let p = map_topic_with_user(&topic(1, vec![3, 2]), &members, 9, 2).unwrap();
    let t = p.into_topic();
    assert_eq!(t.created_by_user_id, 1);
    assert_eq!(t.upvoted_by_users_ids, vec![3, 2]);
    assert_eq!(t.updated_at, 3);
}

#[test]
fn personalized_page_fails_on_a_missing_voter() {
    let mut dir = GitlabService::new(600);
    dir.refresh_members_cache(Ok(vec![member(1)])).unwrap();
    let mut svc = TopicsService::new();
    let form = TopicFormDTO { text: "hello".to_string(), will_be_presented_by_the_creator: None };
    let t = svc.create_topic(form, 4, 1, 0).unwrap();
    svc.upvote_topic(4, t.id, 2).unwrap();
    let page = svc.get_personalized_topics(&dir, 4, 1, 1, PaginationParameters { limit: 10, skip: 0 }, TopicStatus::Created);
    assert!(matches!(page, Err(ConsistencyError::MissingUpvoter(2))));
    let empty = svc.get_personalized_topics(&dir, 4, 1, 1, PaginationParameters { limit: 10, skip: 5 }, TopicStatus::Created);
    assert!(empty.unwrap().is_empty());
}
