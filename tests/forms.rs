use guildhub::forms::{
    post_guild_form_draft, post_topic_form_draft, GuildFormPage, TopicFormPage, insert_new_member, match_members, parse_env, validator_errors_to_hashmap, CreateTopicTemplate,
    Environment, ErrorMap, FieldErrors, GuildFormDTO, TopicDraft, ValidationError, ValidationErrors,
};
use guildhub::member::Member;
use guildhub::topics::TopicFormDTO;

fn member(id: u64, username: &str) -> Member {
    Member { id, username: username.to_string(), name: String::new(), avatar_url: String::new() }
}

fn topic_form(text: &str) -> TopicFormDTO {
    TopicFormDTO { text: text.to_string(), will_be_presented_by_the_creator: None }
}

#[test]
fn topic_text_length_rule() {
    assert!(topic_form("ok").validate().is_ok());
    assert!(topic_form("  ok  ").validate().is_ok());
    assert!(topic_form("x").validate().is_err());
    assert!(topic_form("   ").validate().is_err());
    assert!(topic_form(&"a".repeat(200)).validate().is_ok());
    assert!(topic_form(&"a".repeat(201)).validate().is_err());
}

#[test]
fn invalid_topic_reports_the_text_field() {
    let errors = topic_form("x").validate().unwrap_err();
    let map = validator_errors_to_hashmap(Some(errors));
    assert_eq!(map.message("text"), "Length must be between 2 and 200 characters");
    assert_eq!(map.message("other"), "");
}

#[test]
fn guild_name_rule() {
    let ok = GuildFormDTO { name: "Team".to_string(), member_ids: vec![], member_search_term: String::new() };
    assert!(ok.validate().is_ok());
    let bad = GuildFormDTO { name: "T".to_string(), member_ids: vec![], member_search_term: String::new() };
    let map = validator_errors_to_hashmap(bad.validate().err());
    assert_eq!(map.message("name"), "Name length must be between 2 and 200 characters");
}

#[test]
fn no_errors_give_an_empty_map() {
    assert!(validator_errors_to_hashmap(None).is_empty());
}

#[test]
fn first_message_of_each_field_wins() {
    let errors = ValidationErrors {
        field_errors: vec![
            FieldErrors {
                field: "a".to_string(),
                errors: vec![
                    ValidationError { code: "x".to_string(), message: Some("first".to_string()) },
                    ValidationError { code: "y".to_string(), message: Some("second".to_string()) },
                ],
            },
            FieldErrors {
                field: "b".to_string(),
                errors: vec![ValidationError { code: "x".to_string(), message: None }],
            },
        ],
    };
    let map = validator_errors_to_hashmap(Some(errors));
    assert_eq!(map.entries.len(), 1);
    assert_eq!(map.message("a"), "first");
    assert_eq!(map.message("b"), "");
}

#[test]
fn template_reads_field_messages() {
    let t = CreateTopicTemplate {
        user: Member::default(),
        topic: TopicDraft { id: None, guild_id: 1, text: String::new(), will_be_presented_by_the_creator: true },
        errors: ErrorMap { entries: vec![("text".to_string(), "too short".to_string())] },
        is_valid: false,
        should_swap_oob: true,
    };
    assert_eq!(t.get_field_error_message("text"), "too short");
    assert_eq!(t.get_field_error_message("name"), "");
}

#[test]
fn member_search_ignores_case_and_chosen_members() {
    let all = vec![member(1, "Alice"), member(2, "bob"), member(3, "malice")];
    let found = match_members(&all, &vec![3], &"  ALI ".to_string());
    assert_eq!(found.iter().map(|m| m.id).collect::<Vec<_>>(), vec![1]);
    assert!(match_members(&all, &vec![], &String::new()).is_empty());
}

#[test]
fn picked_member_goes_first_once() {
    let existing = vec![member(1, "a")];
    let r = insert_new_member(existing, &vec![1], member(2, "b"));
    assert_eq!(r.iter().map(|m| m.id).collect::<Vec<_>>(), vec![2, 1]);
    let r = insert_new_member(vec![member(1, "a")], &vec![1], member(1, "a"));
    assert_eq!(r.len(), 1);
}

#[test]
fn environment_names() {
    assert_eq!(parse_env(" PROD "), Environment::Production);
    assert_eq!(parse_env("production"), Environment::Production);
    assert_eq!(parse_env("Test"), Environment::Test);
    assert_eq!(parse_env("anything"), Environment::Development);
    assert!(Environment::Test.is_test());
    assert!(!Environment::Production.is_test());
}

#[test]
fn topic_draft_picks_create_or_edit() {
    match post_topic_form_draft(3, None, Member::default(), topic_form("x")) {
        TopicFormPage::Create(t) => {
            assert!(!t.is_valid);
            assert!(t.should_swap_oob);
            assert_eq!(t.get_field_error_message("text"), "Length must be between 2 and 200 characters");
        }
        TopicFormPage::Edit(_) => panic!("expected the create form"),
    }
    match post_topic_form_draft(3, Some(8), Member::default(), topic_form("fine text")) {
        TopicFormPage::Edit(t) => {
            assert!(t.is_valid);
            assert_eq!(t.topic.id, Some(8));
        }
        TopicFormPage::Create(_) => panic!("expected the edit form"),
    }
}

#[test]
fn guild_draft_offers_matching_members() {
    let all = vec![member(1, "Alice"), member(2, "bob")];
    let form = GuildFormDTO { name: "Team".to_string(), member_ids: vec![], member_search_term: "bo".to_string() };
    match post_guild_form_draft(None, Member::default(), form, &all) {
        GuildFormPage::Create(t) => {
            assert!(t.is_valid);
            assert_eq!(t.matched_members.iter().map(|m| m.id).collect::<Vec<_>>(), vec![2]);
        }
        GuildFormPage::Edit(_) => panic!("expected the create form"),
    }
}
