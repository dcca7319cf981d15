//! Matching users against the entries of a channel's ban-type lists.

use vstd::prelude::*;
use crate::types::{Pattern, wildcard_matches};

verus! {

/// What a ban resolver reads of a user: the parts of its hostmask.
#[derive(Debug)]
pub struct UserMask {
    pub nick: String,
    pub user: String,
    pub visible_host: String,
}

/// The hostmask `nick!user@host` of a user.
pub open spec fn hostmask(u: UserMask) -> Seq<char> {
    u.nick@ + seq!['!'] + u.user@ + seq!['@'] + u.visible_host@
}

/// The contents of a sequence of patterns.
pub open spec fn pattern_views(s: Seq<Pattern>) -> Seq<Seq<char>> {
    s.map_values(|p: Pattern| p@)
}

/// Some entry of `list` matches `mask`.
pub open spec fn listed(list: Seq<Seq<char>>, mask: Seq<char>) -> bool {
    exists|i: int| 0 <= i < list.len() && #[trigger] wildcard_matches(list[i], mask)
}

/// `r` is the position of the first entry of `list` that matches `mask`, or
/// `None` when none does.
pub open spec fn first_match(list: Seq<Seq<char>>, mask: Seq<char>, r: Option<usize>) -> bool {
    match r {
        Some(i) => i < list.len() && wildcard_matches(list[i as int], mask)
            && forall|j: int| 0 <= j < i ==> !#[trigger] wildcard_matches(list[j], mask),
        None => !listed(list, mask),
    }
}

/// The policy that matches ban list entries against users.
pub trait BanResolver {
    /// Whether `user` is matched by the list entry `entry`.
    fn user_matches_entry(&self, user: &UserMask, entry: &Pattern) -> bool;

    /// The position of the first entry of `list` that matches `user`.
    fn user_matches_list(&self, user: &UserMask, list: &Vec<Pattern>) -> Option<usize>;
}

/// The standard ban resolver: an entry is a pattern matched against the
/// user's `nick!user@host`.
#[derive(Debug)]
pub struct StandardBanResolver {}

impl StandardBanResolver {
    pub fn new() -> (r: StandardBanResolver) {
        StandardBanResolver {}
    }
}

/// The text `nick!user@host` of a user's hostmask.
pub fn hostmask_text(user: &UserMask) -> (r: String)
    ensures
        r@ == hostmask(*user),
{
    let mut s = user.nick.clone();
    s.push('!');
    s.push_str(user.user.as_str());
    s.push('@');
    s.push_str(user.visible_host.as_str());
    proof {
        assert(s@ =~= hostmask(*user));
    }
    s
}

impl BanResolver for StandardBanResolver {
    fn user_matches_entry(&self, user: &UserMask, entry: &Pattern) -> (r: bool)
        ensures
            r == wildcard_matches(entry@, hostmask(*user)),
    {
        let nuh = hostmask_text(user);
        entry.matches(nuh.as_str())
    }

    fn user_matches_list(&self, user: &UserMask, list: &Vec<Pattern>) -> (r: Option<usize>)
        ensures
            first_match(pattern_views(list@), hostmask(*user), r),
    {
        let ghost pv = pattern_views(list@);
        let ghost mask = hostmask(*user);
        let mut i: usize = 0;
        while i < list.len()
            invariant
                i <= list@.len(),
                pv == pattern_views(list@),
                mask == hostmask(*user),
                forall|j: int| 0 <= j < i ==> !#[trigger] wildcard_matches(pv[j], mask),
            decreases list@.len() - i,
        {
            proof {
                assert(pv[i as int] == list@[i as int]@);
            }
            if self.user_matches_entry(user, &list[i]) {
                return Some(i);
            }
            i = i + 1;
        }
        None
    }
}

} // verus!
