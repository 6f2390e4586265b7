use vstd::prelude::*;
use vstd::string::StringExecFns;

verus! {

/// An identity record of the external organization directory.
pub struct Member {
    pub id: u64,
    pub username: String,
    pub name: String,
    pub avatar_url: String,
}

impl Clone for Member {
    fn clone(&self) -> (r: Member)
        ensures
            r == *self,
    {
        Member {
            id: self.id,
            username: self.username.clone(),
            name: self.name.clone(),
            avatar_url: self.avatar_url.clone(),
        }
    }
}

impl Member {
    /// The member seeded into the directory outside production.
    pub fn default() -> (m: Member)
        ensures
            m.id == 0,
            m.username@ == "default"@,
            m.name@ == "Default Test"@,
            m.avatar_url@ == "/static/images/user-avatar.png"@,
    {
        Member {
            id: 0,
            username: String::from_str("default"),
            name: String::from_str("Default Test"),
            avatar_url: String::from_str("/static/images/user-avatar.png"),
        }
    }
}

} // verus!
