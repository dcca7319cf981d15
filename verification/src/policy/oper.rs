//! The standard oper policy: which actions need oper status, and checking
//! oper credentials.

use vstd::prelude::*;
use crate::policy::error::{PermissionError, PermissionResult, UserPermissionError, refused_for_user};
use crate::types::Pattern;
use crate::text::str_eq;

verus! {

/// Whether `pass` is the password that the Unix crypt hash `hash` was made from.
pub uninterp spec fn password_matches_hash(pass: Seq<char>, hash: Seq<char>) -> bool;

/// Calls pwhash's `unix::verify(pass, hash)`, which recognises the hash's
/// format, hashes `pass` with the salt it holds, and compares the two in
/// constant time. The result is named [`password_matches_hash`], a function
/// of the password and the hash alone; nothing more of it is stated here.
#[verifier::external_body]
fn verify_password(pass: &str, hash: &str) -> (r: bool)
    ensures
        r == password_matches_hash(pass@, hash@),
{
    pwhash::unix::verify(pass, hash)
}

/// The credentials of an oper: a name and the Unix crypt hash of a password.
#[derive(Debug)]
pub struct OperConfig {
    pub name: String,
    pub hash: String,
}

/// The policy for authenticating opers.
pub trait OperAuthenticationService {
    /// Whether `user` and `pass` are the credentials of `oper_config`.
    fn authenticate(&self, oper_config: &OperConfig, user: &str, pass: &str) -> bool;
}

/// The standard oper policy.
#[derive(Debug)]
pub struct StandardOperPolicy {}

/// `r` allows exactly when the user is an oper.
pub open spec fn oper_result(is_oper: bool, r: PermissionResult) -> bool {
    if is_oper {
        r is Ok
    } else {
        refused_for_user(r, UserPermissionError::NotOper)
    }
}

impl StandardOperPolicy {
    pub fn new() -> (r: StandardOperPolicy) {
        StandardOperPolicy {}
    }

    /// Whether a user may become an oper: any user may.
    pub fn user_can_oper(&self, user_is_oper: bool) -> (r: PermissionResult)
        ensures
            r is Ok,
    {
        Ok(())
    }

    /// Allowed exactly when the user is an oper.
    pub fn require_oper(&self, user_is_oper: bool) -> (r: PermissionResult)
        ensures
            oper_result(user_is_oper, r),
    {
        if user_is_oper {
            Ok(())
        } else {
            Err(PermissionError::User(UserPermissionError::NotOper))
        }
    }

    /// Whether the user may set a K-line on the given patterns: opers may.
    pub fn can_set_kline(&self, oper_is_oper: bool, user: &Pattern, host: &Pattern, duration: i64) -> (r: PermissionResult)
        ensures
            oper_result(oper_is_oper, r),
    {
        self.require_oper(oper_is_oper)
    }

    /// Whether the user may disconnect another user: opers may.
    pub fn can_kill(&self, oper_is_oper: bool) -> (r: PermissionResult)
        ensures
            oper_result(oper_is_oper, r),
    {
        self.require_oper(oper_is_oper)
    }
}

impl OperAuthenticationService for StandardOperPolicy {
    fn authenticate(&self, oper_config: &OperConfig, user: &str, pass: &str) -> (r: bool)
        ensures
            r == (user@ == oper_config.name@ && password_matches_hash(pass@, oper_config.hash@)),
    {
        let name_matches = str_eq(user, oper_config.name.as_str());
        name_matches && verify_password(pass, oper_config.hash.as_str())
    }
}

} // verus!
