use guildhub::directory::{next_refresh_delay, ExternalApiError, GitlabService, GroupMembersPager};
use guildhub::member::Member;

fn member(id: u64, username: &str) -> Member {
    Member {
        id,
        username: username.to_string(),
        name: username.to_uppercase(),
        avatar_url: format!("/a/{id}.png"),
    }
}

#[test]
fn inserted_member_is_served_at_once() {
    let mut dir = GitlabService::new(600);
    dir.insert_member_into_cache(member(3, "ann"));
    assert_eq!(dir.get_cached_member(3).unwrap().username, "ann");
    assert!(dir.get_cached_member(4).is_none());
}

#[test]
fn member_expires_after_its_time_to_live() {
    let mut dir = GitlabService::new(1);
    dir.insert_member_into_cache(member(3, "ann"));
    assert!(dir.get_cached_member(3).is_some());
    let start = std::time::Instant::now();
    while start.elapsed() < std::time::Duration::from_millis(1300) {}
    assert!(dir.get_cached_member(3).is_none());
}

#[test]
fn refresh_upserts_every_member() {
    let mut dir = GitlabService::new(600);
    dir.insert_member_into_cache(member(1, "old"));
    dir.refresh_members_cache(Ok(vec![member(1, "new"), member(2, "bob")])).unwrap();
    assert_eq!(dir.get_cached_member(1).unwrap().username, "new");
    assert_eq!(dir.get_cached_member(2).unwrap().username, "bob");
}

#[test]
fn failed_refresh_keeps_entries_servable() {
    let mut dir = GitlabService::new(600);
    dir.refresh_members_cache(Ok(vec![member(1, "ann")])).unwrap();
    let failed = dir.refresh_members_cache(Err(ExternalApiError::Unreachable));
    assert_eq!(failed, Err(ExternalApiError::Unreachable));
    assert_eq!(dir.get_cached_member(1).unwrap().username, "ann");
    dir.refresh_members_cache(Ok(vec![member(2, "bob")])).unwrap();
    assert!(dir.get_cached_member(1).is_some());
    assert!(dir.get_cached_member(2).is_some());
}

#[test]
fn get_many_skips_misses_and_keeps_order() {
    let mut dir = GitlabService::new(600);
    dir.refresh_members_cache(Ok(vec![member(1, "ann"), member(2, "bob")])).unwrap();
    let found = dir.get_cached_members_by_ids(&vec![2, 5, 1]);
    assert_eq!(found.iter().map(|m| m.id).collect::<Vec<_>>(), vec![2, 1]);
}

#[test]
fn all_members_lists_the_live_records() {
    let mut dir = GitlabService::new(600);
    dir.refresh_members_cache(Ok(vec![member(1, "ann"), member(2, "bob")])).unwrap();
    let mut ids: Vec<u64> = dir.get_all_cached_members().iter().map(|m| m.id).collect();
    ids.sort();
    assert_eq!(ids, vec![1, 2]);
}

#[test]
fn refresh_delay_retries_quickly_after_failure() {
    assert_eq!(next_refresh_delay(&Ok(()), 300), 300);
    assert_eq!(next_refresh_delay(&Err(ExternalApiError::BadResponse), 300), 5);
}

#[test]
fn pager_stops_at_a_short_page() {
    let mut pager = GroupMembersPager::new(2);
    pager.on_page(vec![member(1, "a"), member(2, "b")]);
    assert!(!pager.done);
    assert_eq!(pager.next_page, 2);
    pager.on_page(vec![member(3, "c")]);
    assert!(pager.done);
    assert_eq!(pager.members.len(), 3);
}
