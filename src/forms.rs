use vstd::prelude::*;
use vstd::string::StringExecFns;

use crate::member::Member;
use crate::topics::TopicFormDTO;

verus! {

#[verifier::external_type_specification]
#[verifier::external_body]
pub struct ExRegexError(regex::Error);

/// Whether `regex` finds the pattern `pattern` in `text`.
pub uninterp spec fn regex_match(pattern: Seq<char>, text: Seq<char>) -> bool;

/// `s` in lower case, as `str::to_lowercase` maps it.
pub uninterp spec fn lower_of(s: Seq<char>) -> Seq<char>;

/// `s` without leading and trailing white space, as `str::trim` cuts it.
pub uninterp spec fn trimmed_of(s: Seq<char>) -> Seq<char>;

/// `p` occurs in `s` as a run of consecutive characters.
pub open spec fn occurs_in(p: Seq<char>, s: Seq<char>) -> bool {
    exists|i: int| 0 <= i && i + p.len() <= s.len() && #[trigger] s.subrange(i, i + p.len()) == p
}

/// Relies on `regex::Regex::new` and `Regex::is_match`: whether the compiled
/// pattern matches somewhere in `text`. The length pattern of this library
/// is valid syntax well within the default size limit, so it compiles.
#[verifier::external_body]
fn pattern_matches(pattern: &str, text: &str) -> (r: Result<bool, regex::Error>)
    ensures
        pattern@ == TEXT_LENGTH_PATTERN@ ==> r is Ok,
        r matches Ok(b) ==> b == regex_match(pattern@, text@),
{
    match regex::Regex::new(pattern) {
        Ok(re) => Ok(re.is_match(text)),
        Err(e) => Err(e),
    }
}

/// Relies on `str::to_lowercase`: the result depends on the characters alone.
#[verifier::external_body]
fn lowercase(s: &str) -> (r: String)
    ensures
        r@ == lower_of(s@),
{
    s.to_lowercase()
}

/// Relies on `str::trim`: the result depends on the characters alone.
#[verifier::external_body]
fn trim(s: &str) -> (r: &str)
    ensures
        r@ == trimmed_of(s@),
{
    s.trim()
}

/// Relies on `str::contains` with a string pattern.
#[verifier::external_body]
fn contains_text(s: &str, p: &str) -> (r: bool)
    ensures
        r == occurs_in(p@, s@),
{
    s.contains(p)
}

/// Two to two hundred characters once surrounding white space is set aside.
pub const TEXT_LENGTH_PATTERN: &'static str = "^\\s*(\\S.{0,198}\\S)\\s*$";

pub const TOPIC_TEXT_MESSAGE: &'static str = "Length must be between 2 and 200 characters";

pub const GUILD_NAME_MESSAGE: &'static str = "Name length must be between 2 and 200 characters";

/// One failed constraint on a form field.
pub struct ValidationError {
    pub code: String,
    pub message: Option<String>,
}

/// The failed constraints of a form, field by field.
pub struct FieldErrors {
    pub field: String,
    pub errors: Vec<ValidationError>,
}

pub struct ValidationErrors {
    pub field_errors: Vec<FieldErrors>,
}

/// Field names with the message to show beside each, at most one per field.
pub struct ErrorMap {
    pub entries: Vec<(String, String)>,
}

/// The message of the first failed constraint of each field that has one.
pub open spec fn first_messages(fs: Seq<FieldErrors>) -> Seq<(Seq<char>, Seq<char>)>
    decreases fs.len(),
{
    if fs.len() == 0 {
        seq![]
    } else {
        let rest = first_messages(fs.drop_last());
        let f = fs.last();
        if f.errors@.len() > 0 && f.errors@[0].message is Some {
            rest.push((f.field@, f.errors@[0].message->Some_0@))
        } else {
            rest
        }
    }
}

pub open spec fn entries_view(es: Seq<(String, String)>) -> Seq<(Seq<char>, Seq<char>)> {
    es.map_values(|e: (String, String)| (e.0@, e.1@))
}

/// The message recorded for `field`: the first entry that names it.
pub open spec fn message_for(es: Seq<(Seq<char>, Seq<char>)>, field: Seq<char>) -> Option<Seq<char>>
    decreases es.len(),
{
    if es.len() == 0 {
        None
    } else if es[0].0 == field {
        Some(es[0].1)
    } else {
        message_for(es.drop_first(), field)
    }
}

/// Flattens validation errors to one message per field: the first one of
/// that field that has a message. No errors give an empty map.
pub fn validator_errors_to_hashmap(errors: Option<ValidationErrors>) -> (r: ErrorMap)
    ensures
        errors is None ==> r.entries@.len() == 0,
        errors matches Some(e) ==> entries_view(r.entries@) == first_messages(e.field_errors@),
{
    let mut entries: Vec<(String, String)> = Vec::new();
    let errors = match errors {
        None => {
            return ErrorMap { entries };
        },
        Some(e) => e,
    };
    let fs = &errors.field_errors;
    let mut i: usize = 0;
    assert(fs@.take(0) =~= Seq::<FieldErrors>::empty());
    assert(entries_view(entries@) =~= Seq::<(Seq<char>, Seq<char>)>::empty());
    while i < fs.len()
        invariant
            i <= fs@.len(),
            entries_view(entries@) == first_messages(fs@.take(i as int)),
        decreases fs@.len() - i,
    {
        assert(fs@.take(i as int + 1).drop_last() =~= fs@.take(i as int));
        assert(fs@.take(i as int + 1).last() == fs@[i as int]);
        let f = &fs[i];
        if f.errors.len() > 0 {
            match &f.errors[0].message {
                Some(m) => {
                    let ghost before = entries@;
                    entries.push((f.field.clone(), m.clone()));
                    assert(entries_view(entries@) =~= entries_view(before).push((f.field@, m@)));
                },
                None => {},
            }
        }
        i += 1;
    }
    assert(fs@.take(fs@.len() as int) =~= fs@);
    ErrorMap { entries }
}

impl ErrorMap {
    pub fn is_empty(&self) -> (r: bool)
        ensures
            r == (self.entries@.len() == 0),
    {
        self.entries.len() == 0
    }

    /// The message recorded for `field`, or an empty text.
    pub fn message(&self, field: &str) -> (r: &str)
        ensures
            message_for(entries_view(self.entries@), field@) matches Some(m) ==> r@ == m,
            message_for(entries_view(self.entries@), field@) is None ==> r@ == ""@,
    {
        let key = String::from_str(field);
        let mut i: usize = 0;
        assert(entries_view(self.entries@).skip(0) =~= entries_view(self.entries@));
        while i < self.entries.len()
            invariant
                i <= self.entries@.len(),
                key@ == field@,
                message_for(entries_view(self.entries@), field@) == message_for(entries_view(self.entries@).skip(i as int), field@),
            decreases self.entries@.len() - i,
        {
            let ghost rest = entries_view(self.entries@).skip(i as int);
            assert(rest[0] == (self.entries@[i as int].0@, self.entries@[i as int].1@));
            if self.entries[i].0 == key {
                return self.entries[i].1.as_str();
            }
            assert(rest.drop_first() =~= entries_view(self.entries@).skip(i as int + 1));
            i += 1;
        }
        ""
    }
}

/// An error map with the single entry `field` → `message`.
fn single_error(field: &str, message: &str) -> (r: ValidationErrors)
    ensures
        first_messages(r.field_errors@) == seq![(field@, message@)],
{
    let e = ValidationError { code: String::from_str("regex"), message: Some(String::from_str(message)) };
    let mut errors: Vec<ValidationError> = Vec::new();
    errors.push(e);
    let mut field_errors: Vec<FieldErrors> = Vec::new();
    field_errors.push(FieldErrors { field: String::from_str(field), errors });
    let r = ValidationErrors { field_errors };
    assert(r.field_errors@.drop_last() =~= Seq::<FieldErrors>::empty());
    assert(first_messages(r.field_errors@.drop_last()) == Seq::<(Seq<char>, Seq<char>)>::empty());
    assert(r.field_errors@.last().errors@.len() == 1);
    assert(r.field_errors@.last().errors@[0].message->Some_0@ == message@);
    assert(first_messages(r.field_errors@) =~= seq![(field@, message@)]);
    r
}

/// Checks `text` against the length rule; the error names `field`.
fn validate_length(field: &str, text: &String, message: &str) -> (r: Result<(), ValidationErrors>)
    ensures
        r is Ok <==> regex_match(TEXT_LENGTH_PATTERN@, text@),
        r matches Err(e) ==> first_messages(e.field_errors@) == seq![(field@, message@)],
{
    match pattern_matches(TEXT_LENGTH_PATTERN, text.as_str()) {
        Ok(true) => Ok(()),
        _ => Err(single_error(field, message)),
    }
}

impl TopicFormDTO {
    /// The text must hold two to two hundred characters, leading and trailing
    /// white space aside.
    pub fn validate(&self) -> (r: Result<(), ValidationErrors>)
        ensures
            r is Ok <==> regex_match(TEXT_LENGTH_PATTERN@, self.text@),
            r matches Err(e) ==> first_messages(e.field_errors@) == seq![("text"@, TOPIC_TEXT_MESSAGE@)],
    {
        validate_length("text", &self.text, TOPIC_TEXT_MESSAGE)
    }
}

/// The fields a member submits to create or edit a guild.
pub struct GuildFormDTO {
    pub name: String,
    pub member_ids: Vec<u64>,
    pub member_search_term: String,
}

impl GuildFormDTO {
    /// The name must hold two to two hundred characters, leading and trailing
    /// white space aside.
    pub fn validate(&self) -> (r: Result<(), ValidationErrors>)
        ensures
            r is Ok <==> regex_match(TEXT_LENGTH_PATTERN@, self.name@),
            r matches Err(e) ==> first_messages(e.field_errors@) == seq![("name"@, GUILD_NAME_MESSAGE@)],
    {
        validate_length("name", &self.name, GUILD_NAME_MESSAGE)
    }
}

/// A topic being written, before or while it is stored.
pub struct TopicDraft {
    pub id: Option<u64>,
    pub guild_id: u64,
    pub text: String,
    pub will_be_presented_by_the_creator: bool,
}

/// A guild being written, before or while it is stored.
pub struct GuildDraft {
    pub id: Option<u64>,
    pub name: String,
    pub members: Vec<Member>,
}

pub struct CreateTopicTemplate {
    pub user: Member,
    pub topic: TopicDraft,
    pub errors: ErrorMap,
    pub is_valid: bool,
    pub should_swap_oob: bool,
}

pub struct EditTopicTemplate {
    pub user: Member,
    pub topic: TopicDraft,
    pub errors: ErrorMap,
    pub is_valid: bool,
    pub should_swap_oob: bool,
}

pub struct CreateGuildFormTemplate {
    pub user: Member,
    pub guild: GuildDraft,
    pub member_search_term: String,
    pub matched_members: Vec<Member>,
    pub errors: ErrorMap,
    pub is_valid: bool,
    pub should_swap_oob: bool,
}

pub struct EditGuildFormTemplate {
    pub user: Member,
    pub guild: GuildDraft,
    pub member_search_term: String,
    pub matched_members: Vec<Member>,
    pub errors: ErrorMap,
    pub is_valid: bool,
    pub should_swap_oob: bool,
}

impl CreateTopicTemplate {
    /// The message to show beside `field`, or an empty text.
    pub fn get_field_error_message<'a>(&'a self, field: &str) -> (r: &'a str)
        ensures
            r@ == message_for(entries_view(self.errors.entries@), field@).unwrap_or(""@),
    {
        self.errors.message(field)
    }
}

impl EditTopicTemplate {
    /// The message to show beside `field`, or an empty text.
    pub fn get_field_error_message<'a>(&'a self, field: &str) -> (r: &'a str)
        ensures
            r@ == message_for(entries_view(self.errors.entries@), field@).unwrap_or(""@),
    {
        self.errors.message(field)
    }
}

impl CreateGuildFormTemplate {
    /// The message to show beside `field`, or an empty text.
    pub fn get_field_error_message<'a>(&'a self, field: &str) -> (r: &'a str)
        ensures
            r@ == message_for(entries_view(self.errors.entries@), field@).unwrap_or(""@),
    {
        self.errors.message(field)
    }
}

impl EditGuildFormTemplate {
    /// The message to show beside `field`, or an empty text.
    pub fn get_field_error_message<'a>(&'a self, field: &str) -> (r: &'a str)
        ensures
            r@ == message_for(entries_view(self.errors.entries@), field@).unwrap_or(""@),
    {
        self.errors.message(field)
    }
}

/// A directory record offered for a guild being edited: not chosen yet, and
/// its user name holds the search term, both in lower case, the term trimmed.
pub open spec fn offered(m: Member, selected: Seq<u64>, term: Seq<char>) -> bool {
    !selected.contains(m.id) && occurs_in(trimmed_of(lower_of(term)), lower_of(m.username@))
}

pub open spec fn offered_by(selected: Seq<u64>, term: Seq<char>) -> spec_fn(Member) -> bool {
    |m: Member| offered(m, selected, term)
}

/// The records of `members` to offer for the search `term`, in order; an
/// empty term offers none.
pub fn match_members(members: &Vec<Member>, selected: &Vec<u64>, term: &String) -> (r: Vec<Member>)
    ensures
        term@.len() == 0 ==> r@.len() == 0,
        term@.len() > 0 ==> r@ == members@.filter(offered_by(selected@, term@)),
{
    let mut r: Vec<Member> = Vec::new();
    if term.as_str().is_empty() {
        return r;
    }
    let lowered = lowercase(term.as_str());
    let needle = trim(lowered.as_str());
    let ghost pred = offered_by(selected@, term@);
    let mut i: usize = 0;
    assert(members@.take(0) =~= Seq::<Member>::empty());
    while i < members.len()
        invariant
            i <= members@.len(),
            needle@ == trimmed_of(lower_of(term@)),
            pred == offered_by(selected@, term@),
            r@ == members@.take(i as int).filter(pred),
        decreases members@.len() - i,
    {
        let m = &members[i];
        assert(members@.take(i as int + 1) =~= members@.take(i as int).push(members@[i as int]));
        proof {
            members@.take(i as int).lemma_filter_push(members@[i as int], pred);
        }
        let chosen = crate::votes::has_voter(selected, m.id);
        if !chosen {
            let name = lowercase(m.username.as_str());
            if contains_text(name.as_str(), needle) {
                assert(pred(*m));
                r.push(m.clone());
            } else {
                assert(!pred(*m));
            }
        } else {
            assert(!pred(*m));
        }
        i += 1;
    }
    assert(members@.take(members@.len() as int) =~= members@);
    r
}

/// The members of a guild draft after `member` is picked: put first unless
/// it was picked already.
pub fn insert_new_member(existing: Vec<Member>, selected: &Vec<u64>, member: Member) -> (r: Vec<Member>)
    ensures
        selected@.contains(member.id) ==> r@ == existing@,
        !selected@.contains(member.id) ==> r@ == seq![member] + existing@,
{
    let mut r = existing;
    if !crate::votes::has_voter(selected, member.id) {
        let ghost before = r@;
        r.insert(0, member);
        assert(r@ =~= seq![member] + before);
    }
    r
}

/// The topic form as re-rendered while a member types: a new topic, or an
/// edit of topic `id`.
pub enum TopicFormPage {
    Create(CreateTopicTemplate),
    Edit(EditTopicTemplate),
}

/// Re-renders the topic form for `user` with the state of `form` and its
/// validation messages, for a new topic or, with `topic_id`, an edit.
pub fn post_topic_form_draft(guild_id: u64, topic_id: Option<u64>, user: Member, form: TopicFormDTO) -> (r: TopicFormPage)
    ensures
        topic_id is Some <==> r is Edit,
        match r {
            TopicFormPage::Create(t) => t.topic.id == topic_id && t.topic.guild_id == guild_id && t.topic.text@ == form.text@
                && t.topic.will_be_presented_by_the_creator == (form.will_be_presented_by_the_creator == Some(true))
                && t.user == user && t.should_swap_oob
                && (t.is_valid <==> t.errors.entries@.len() == 0)
                && (t.is_valid <==> regex_match(TEXT_LENGTH_PATTERN@, form.text@))
                && (!t.is_valid ==> entries_view(t.errors.entries@) == seq![("text"@, TOPIC_TEXT_MESSAGE@)]),
            TopicFormPage::Edit(t) => t.topic.id == topic_id && t.topic.guild_id == guild_id && t.topic.text@ == form.text@
                && t.topic.will_be_presented_by_the_creator == (form.will_be_presented_by_the_creator == Some(true))
                && t.user == user && t.should_swap_oob
                && (t.is_valid <==> t.errors.entries@.len() == 0)
                && (t.is_valid <==> regex_match(TEXT_LENGTH_PATTERN@, form.text@))
                && (!t.is_valid ==> entries_view(t.errors.entries@) == seq![("text"@, TOPIC_TEXT_MESSAGE@)]),
        },
{
    let errors = match form.validate() {
        Ok(()) => validator_errors_to_hashmap(None),
        Err(e) => {
            let m = validator_errors_to_hashmap(Some(e));
            assert(entries_view(m.entries@).len() == 1);
            m
        },
    };
    let is_valid = errors.is_empty();
    let presenter = match form.will_be_presented_by_the_creator {
        Some(b) => b,
        None => false,
    };
    let topic = TopicDraft { id: topic_id, guild_id, text: form.text, will_be_presented_by_the_creator: presenter };
    match topic_id {
        Some(_) => TopicFormPage::Edit(EditTopicTemplate { user, topic, errors, is_valid, should_swap_oob: true }),
        None => TopicFormPage::Create(CreateTopicTemplate { user, topic, errors, is_valid, should_swap_oob: true }),
    }
}

/// The guild form as re-rendered while a member types.
pub enum GuildFormPage {
    Create(CreateGuildFormTemplate),
    Edit(EditGuildFormTemplate),
}

/// Re-renders the guild form for `user` with the state of `form`, its
/// validation messages, and the records of `all_members` that the search
/// term offers; with `guild_id`, as an edit of that guild.
pub fn post_guild_form_draft(guild_id: Option<u64>, user: Member, form: GuildFormDTO, all_members: &Vec<Member>) -> (r: GuildFormPage)
    ensures
        guild_id is Some <==> r is Edit,
        match r {
            GuildFormPage::Create(t) => t.guild.id == guild_id && t.guild.name@ == form.name@ && t.guild.members@.len() == 0
                && t.user == user && t.should_swap_oob && t.member_search_term@ == form.member_search_term@
                && (form.member_search_term@.len() > 0 ==> t.matched_members@
                    == all_members@.filter(offered_by(form.member_ids@, form.member_search_term@)))
                && (form.member_search_term@.len() == 0 ==> t.matched_members@.len() == 0)
                && (t.is_valid <==> t.errors.entries@.len() == 0)
                && (t.is_valid <==> regex_match(TEXT_LENGTH_PATTERN@, form.name@))
                && (!t.is_valid ==> entries_view(t.errors.entries@) == seq![("name"@, GUILD_NAME_MESSAGE@)]),
            GuildFormPage::Edit(t) => t.guild.id == guild_id && t.guild.name@ == form.name@ && t.guild.members@.len() == 0
                && t.user == user && t.should_swap_oob && t.member_search_term@ == form.member_search_term@
                && (form.member_search_term@.len() > 0 ==> t.matched_members@
                    == all_members@.filter(offered_by(form.member_ids@, form.member_search_term@)))
                && (form.member_search_term@.len() == 0 ==> t.matched_members@.len() == 0)
                && (t.is_valid <==> t.errors.entries@.len() == 0)
                && (t.is_valid <==> regex_match(TEXT_LENGTH_PATTERN@, form.name@))
                && (!t.is_valid ==> entries_view(t.errors.entries@) == seq![("name"@, GUILD_NAME_MESSAGE@)]),
        },
{
    let matched_members = match_members(all_members, &form.member_ids, &form.member_search_term);
    let errors = match form.validate() {
        Ok(()) => validator_errors_to_hashmap(None),
        Err(e) => {
            let m = validator_errors_to_hashmap(Some(e));
            assert(entries_view(m.entries@).len() == 1);
            m
        },
    };
    let is_valid = errors.is_empty();
    let guild = GuildDraft { id: guild_id, name: form.name, members: Vec::new() };
    let member_search_term = form.member_search_term;
    match guild_id {
        Some(_) => GuildFormPage::Edit(EditGuildFormTemplate {
            user,
            guild,
            member_search_term,
            matched_members,
            errors,
            is_valid,
            should_swap_oob: true,
        }),
        None => GuildFormPage::Create(CreateGuildFormTemplate {
            user,
            guild,
            member_search_term,
            matched_members,
            errors,
            is_valid,
            should_swap_oob: true,
        }),
    }
}

/// Where the service runs.
#[derive(PartialEq, Eq, Structural, Clone, Copy, Debug)]
pub enum Environment {
    Production,
    Test,
    Development,
}

impl Environment {
    pub fn is_test(&self) -> (r: bool)
        ensures
            r == (*self == Environment::Test),
    {
        match self {
            Environment::Test => true,
            _ => false,
        }
    }
}

/// The environment a setting names, in any case and with white space around
/// it; anything unknown means development.
pub open spec fn environment_named(s: Seq<char>) -> Environment {
    let v = lower_of(trimmed_of(s));
    if v == "production"@ || v == "prod"@ {
        Environment::Production
    } else if v == "test"@ {
        Environment::Test
    } else {
        Environment::Development
    }
}

pub fn parse_env(value: &str) -> (r: Environment)
    ensures
        r == environment_named(value@),
{
    let v = lowercase(trim(value));
    if v == String::from_str("production") || v == String::from_str("prod") {
        Environment::Production
    } else if v == String::from_str("test") {
        Environment::Test
    } else {
        Environment::Development
    }
}

/// The page a topic list asks for, counted from 1.
pub struct PaginationQueryParameters {
    pub page: usize,
}

impl PaginationQueryParameters {
    /// The window of the requested page, `limit` topics a page.
    pub fn to_pagination(&self, limit: usize) -> (r: crate::topics::PaginationParameters)
        requires
            self.page >= 1,
            self.page * limit <= usize::MAX,
        ensures
            r.limit == limit,
            r.skip == (self.page - 1) * limit,
    {
        crate::topics::PaginationParameters::for_page(self.page, limit)
    }
}

/// The path of a guild page.
pub struct GuildIdParameter {
    pub guild_id: u64,
}

/// The path of a topic page.
pub struct TopicParameters {
    pub guild_id: u64,
    pub topic_id: u64,
}

/// How prominent a notification is.
#[derive(PartialEq, Eq, Structural, Clone, Copy, Debug)]
pub enum ToastLevel {
    Info,
    Warning,
    Error,
}

/// A client-side event raised along with a response.
pub enum HxTriggerEvent {
    ShowToast { level: ToastLevel, message: String },
}

} // verus!
