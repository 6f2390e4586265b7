use guildhub::member::Member;

#[test]
fn default_member_is_the_seed_record() {
    let m = Member::default();
    assert_eq!(m.id, 0);
    assert_eq!(m.username, "default");
    assert_eq!(m.name, "Default Test");
    assert_eq!(m.avatar_url, "/static/images/user-avatar.png");
}
