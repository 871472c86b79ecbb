//! Players and what they scored.

use vstd::prelude::*;

verus! {

/// What a player made of one grid: the tries used, and the time taken in seconds.
#[derive(Debug, Clone, Copy, PartialEq, Eq, Structural)]
pub struct Score {
    pub tries: usize,
    pub secs: usize,
}

impl Score {
    /// Faster, or as fast with fewer tries.
    pub open spec fn better_than(self, other: Score) -> bool {
        self.secs < other.secs || (self.secs == other.secs && self.tries < other.tries)
    }

    /// Whether this score comes before `other`.
    pub fn is_better_than(&self, other: &Score) -> (r: bool)
        ensures
            r == self.better_than(*other),
            self.secs < other.secs ==> r,
            self.secs > other.secs ==> !r,
            self.secs == other.secs ==> r == (self.tries < other.tries),
    {
        if self.secs == other.secs {
            self.tries < other.tries
        } else {
            self.secs < other.secs
        }
    }
}

/// An account of the chat service. Accounts are told apart by `id`; the name is only for show.
#[derive(Debug)]
pub struct User {
    pub id: u64,
    pub name: String,
}

impl Clone for User {
    fn clone(&self) -> (r: Self)
        ensures
            r == *self,
    {
        User { id: self.id, name: self.name.clone() }
    }
}

/// What the chat service answers when it is asked for an account's global name.
#[derive(Debug)]
pub struct UserWithGlobalName {
    pub global_name: Option<String>,
}

/// The name that an answer of the chat service leads to: the global name if there is one, and
/// `name` where there is none or no answer came.
pub open spec fn preferred_name(name: Seq<char>, answer: Option<UserWithGlobalName>) -> Seq<char> {
    match answer {
        Some(UserWithGlobalName { global_name: Some(global) }) => global@,
        _ => name,
    }
}

/// A global name that was answered is shown, whatever it is; where none was answered, or no answer
/// came, the account's own name is.
pub proof fn law_global_name_is_preferred(name: Seq<char>, user: UserWithGlobalName)
    ensures
        user.global_name matches Some(global) ==> preferred_name(name, Some(user)) == global@,
        user.global_name is None ==> preferred_name(name, Some(user)) == name,
        preferred_name(name, None) == name,
{
}

/// The faster of two scores is the better one, whatever the tries; of two that took as long, the one
/// with fewer tries is; and of two equal scores none is.
pub proof fn law_faster_scores_are_better(a: Score, b: Score)
    ensures
        a.secs < b.secs ==> a.better_than(b) && !b.better_than(a),
        a.secs == b.secs && a.tries < b.tries ==> a.better_than(b) && !b.better_than(a),
        a.better_than(b) || b.better_than(a) <==> a != b,
{
}

pub trait GlobalName {
    /// The account's own name.
    spec fn account_name(&self) -> Seq<char>;

    /// The user's global name (aka display name) if the chat service answered with one, and the
    /// account's own name otherwise. `answer` is `None` where the request failed.
    fn global_name(&self, answer: Option<&UserWithGlobalName>) -> (r: String)
        ensures
            r@ == preferred_name(
                self.account_name(),
                (match answer {
                    Some(a) => Some(*a),
                    None => None,
                }),
            ),
    ;
}

impl GlobalName for User {
    open spec fn account_name(&self) -> Seq<char> {
        self.name@
    }

    fn global_name(&self, answer: Option<&UserWithGlobalName>) -> (r: String) {
        match answer {
            Some(user) => match &user.global_name {
                Some(global) => global.clone(),
                None => self.name.clone(),
            },
            None => self.name.clone(),
        }
    }
}

} // verus!
