use guildhub::directory::GitlabService;
use guildhub::events::GuildEvent;
use guildhub::forms::GuildFormDTO;
use guildhub::guilds::{assemble_guild, GuildError, GuildsService};
use guildhub::member::Member;
use guildhub::personalize::ConsistencyError;
use guildhub::topics::{TopicFormDTO, TopicsService};

fn member(id: u64, username: &str) -> Member {
    Member { id, username: username.to_string(), name: String::new(), avatar_url: String::new() }
}

fn form(name: &str, ids: Vec<u64>) -> GuildFormDTO {
    GuildFormDTO { name: name.to_string(), member_ids: ids, member_search_term: String::new() }
}

fn directory() -> GitlabService {
    let mut d = GitlabService::new(600);
    d.refresh_members_cache(Ok(vec![member(1, "owner"), member(2, "bob"), member(3, "cid")])).unwrap();
    d
}

#[test]
fn create_keeps_only_resolved_members() {
    let dir = directory();
    let mut svc = GuildsService::new();
    let g = svc.create_new_guild(form("Team", vec![2, 9]), member(1, "owner"), &dir, 5).unwrap();
    assert_eq!(g.members.iter().map(|m| m.id).collect::<Vec<_>>(), vec![2]);
    assert_eq!(g.topics_count, 0);
    let events = svc.take_events();
    assert!(matches!(&events[0], GuildEvent::Create(c) if c.id == g.id));
}

#[test]
fn guild_is_visible_to_creator_and_members_only() {
    let dir = directory();
    let mut svc = GuildsService::new();
    let g = svc.create_new_guild(form("Team", vec![2]), member(1, "owner"), &dir, 5).unwrap();
    assert!(svc.get_guild(1, g.id).is_some());
    assert!(svc.get_guild(2, g.id).is_some());
    assert!(svc.get_guild(3, g.id).is_none());
    assert_eq!(svc.get_guild_documents(2).len(), 1);
    assert!(svc.get_guild_documents(3).is_empty());
}

#[test]
fn guild_list_is_newest_first() {
    let dir = directory();
    let mut svc = GuildsService::new();
    let a = svc.create_new_guild(form("A", vec![]), member(1, "owner"), &dir, 5).unwrap();
    let b = svc.create_new_guild(form("B", vec![]), member(1, "owner"), &dir, 7).unwrap();
    let c = svc.create_new_guild(form("C", vec![]), member(1, "owner"), &dir, 6).unwrap();
    let d = svc.create_new_guild(form("D", vec![]), member(1, "owner"), &dir, 6).unwrap();
    assert_eq!(svc.get_guild_documents(1).iter().map(|d| d.id).collect::<Vec<_>>(), vec![b.id, c.id, d.id, a.id]);
}

#[test]
fn only_the_creator_updates_and_deletes() {
    let dir = directory();
    let mut svc = GuildsService::new();
    let g = svc.create_new_guild(form("Team", vec![2]), member(1, "owner"), &dir, 5).unwrap();
    assert!(matches!(svc.update_guild(g.id, form("X", vec![]), member(2, "bob"), &dir, 0, 6), Err(GuildError::NotFound)));
    let u = svc.update_guild(g.id, form("Renamed", vec![3]), member(1, "owner"), &dir, 4, 7).unwrap();
    assert_eq!(u.name, "Renamed");
    assert_eq!(u.topics_count, 4);
    assert_eq!(u.created_at, 5);
    assert_eq!(svc.get_guild(1, g.id).unwrap().member_ids, vec![3]);
    assert_eq!(svc.delete_guild(2, g.id), Err(GuildError::NotFound));
    assert_eq!(svc.delete_guild(1, g.id), Ok(()));
    assert!(svc.get_guild(1, g.id).is_none());
}

#[test]
fn assembling_needs_the_creator() {
    let dir = directory();
    let mut svc = GuildsService::new();
    let g = svc.create_new_guild(form("Team", vec![2, 3]), member(1, "owner"), &dir, 5).unwrap();
    let doc = svc.get_guild(1, g.id).unwrap();
    let shown = assemble_guild(&doc, &vec![member(3, "cid"), member(1, "owner")], 2).unwrap();
    assert_eq!(shown.members.iter().map(|m| m.id).collect::<Vec<_>>(), vec![3]);
    assert_eq!(shown.created_by_user.id, 1);
    let missing = assemble_guild(&doc, &vec![member(3, "cid")], 2);
    assert!(matches!(missing, Err(ConsistencyError::MissingCreator(1))));
}

#[test]
fn guild_list_is_assembled_with_counts() {
    let dir = directory();
    let mut svc = GuildsService::new();
    let g = svc.create_new_guild(form("Team", vec![3, 2]), member(1, "owner"), &dir, 5).unwrap();
    let mut topics = TopicsService::new();
    let text = TopicFormDTO { text: "hello".to_string(), will_be_presented_by_the_creator: None };
    topics.create_topic(text, g.id, 1, 0).unwrap();
    let shown = svc.get_guilds(2, &dir, &topics).unwrap();
    assert_eq!(shown.len(), 1);
    assert_eq!(shown[0].topics_count, 1);
    assert_eq!(shown[0].created_by_user.id, 1);
    assert_eq!(shown[0].members.iter().map(|m| m.id).collect::<Vec<_>>(), vec![3, 2]);
    let overview = svc.get_guild_overview(3, g.id, &dir, &topics).unwrap().unwrap();
    assert_eq!(overview.name, "Team");
    assert!(svc.get_guild_overview(9, g.id, &dir, &topics).unwrap().is_none());
    let empty = GitlabService::new(600);
    assert!(matches!(svc.get_guilds(2, &empty, &topics), Err(ConsistencyError::MissingCreator(1))));
}
