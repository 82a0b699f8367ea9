use vstd::prelude::*;

use crate::models::{is_admin, role_of, Caller, LoginRequest, Role, User};
use crate::text::str_eq;

verus! {

/// Why a request was refused before it reached the supervisor.
#[derive(Debug, Clone, Copy, PartialEq, Eq, Structural)]
pub enum AuthError {
    /// The login request left the user name or the password empty.
    MissingCredentials,
    /// No user has that name and password.
    BadCredentials,
    /// The user store could not be read.
    Internal,
    /// The session holds no logged-in user.
    NotLoggedIn,
    /// The session holds no user name and role for a rule operation.
    NoSession,
    /// The operation is for admins only.
    NotAdmin,
}

/// The reply text for each refusal.
pub open spec fn auth_error_text(e: AuthError) -> Seq<char> {
    match e {
        AuthError::MissingCredentials => "用户名和密码不能为空"@,
        AuthError::BadCredentials => "用户名或密码错误"@,
        AuthError::Internal => "服务器内部错误"@,
        AuthError::NotLoggedIn => "未登录，请先登录"@,
        AuthError::NoSession => "未登录"@,
        AuthError::NotAdmin => "无权限执行此操作"@,
    }
}

impl AuthError {
    /// The text a refusal reply carries.
    pub fn message(&self) -> (r: &'static str)
        ensures
            r@ == auth_error_text(*self),
    {
        match self {
            AuthError::MissingCredentials => "用户名和密码不能为空",
            AuthError::BadCredentials => "用户名或密码错误",
            AuthError::Internal => "服务器内部错误",
            AuthError::NotLoggedIn => "未登录，请先登录",
            AuthError::NoSession => "未登录",
            AuthError::NotAdmin => "无权限执行此操作",
        }
    }
}

/// A login request must name a user and give a password.
pub fn validate_login(req: &LoginRequest) -> (r: Result<(), AuthError>)
    ensures
        r == (if req.username@.len() == 0 || req.password@.len() == 0 {
            Err(AuthError::MissingCredentials)
        } else {
            Ok(())
        }),
{
    if req.username.as_str().unicode_len() == 0 || req.password.as_str().unicode_len() == 0 {
        Err(AuthError::MissingCredentials)
    } else {
        Ok(())
    }
}

/// The session a login opens, from the user store's answer: the matching user,
/// no user, or a failed read.
pub fn login_session(found: Result<Option<User>, ()>) -> (r: Result<(i32, String, String), AuthError>)
    ensures
        match found {
            Ok(Some(u)) => r is Ok && r->Ok_0.0 == u.id && r->Ok_0.1@ == u.username@ && r->Ok_0.2@
                == u.role@,
            Ok(None) => r == Err::<(i32, String, String), AuthError>(AuthError::BadCredentials),
            Err(()) => r == Err::<(i32, String, String), AuthError>(AuthError::Internal),
        },
{
    match found {
        Ok(Some(u)) => Ok((u.id, u.username, u.role)),
        Ok(None) => Err(AuthError::BadCredentials),
        Err(()) => Err(AuthError::Internal),
    }
}

/// The user name and role a session holds, if it holds both.
pub fn get_current_user(username: Option<String>, role: Option<String>) -> (r: Option<
    (String, String),
>)
    ensures
        match (username, role) {
            (Some(u), Some(x)) => r is Some && r->Some_0.0@ == u@ && r->Some_0.1@ == x@,
            _ => r is None,
        },
{
    match (username, role) {
        (Some(u), Some(x)) => Some((u, x)),
        _ => None,
    }
}

/// The caller a session stands for, if it holds a user name and a role.
pub fn current_caller(username: Option<String>, role: Option<String>) -> (r: Option<Caller>)
    ensures
        match (username, role) {
            (Some(u), Some(x)) => r is Some && r->Some_0.username@ == u@ && r->Some_0.role
                == role_of(x@),
            _ => r is None,
        },
{
    match get_current_user(username, role) {
        Some((u, x)) => {
            let role = Role::parse(x.as_str());
            Some(Caller { username: u, role })
        },
        None => None,
    }
}

/// Whether the session user may act on a rule owned by `rule_owner`: admins on
/// every rule, anyone else on its own rules; no session user, no rule.
pub fn check_rule_owner(current: &Option<(String, String)>, rule_owner: &str) -> (r: bool)
    ensures
        r == match current {
            None => false,
            Some((u, x)) => is_admin(role_of(x@)) || u@ == rule_owner@,
        },
{
    match current {
        None => false,
        Some((u, x)) => Role::parse(x.as_str()).is_admin() || str_eq(u.as_str(), rule_owner),
    }
}

/// Gate of the logged-in area: a session must hold a user name.
pub fn require_login(username: &Option<String>) -> (r: Result<(), AuthError>)
    ensures
        r == (if username.is_some() {
            Ok(())
        } else {
            Err(AuthError::NotLoggedIn)
        }),
{
    match username {
        Some(_) => Ok(()),
        None => Err(AuthError::NotLoggedIn),
    }
}

/// Gate of the admin area: a session must hold the role of an admin or super admin.
pub fn require_admin(role: &Option<String>) -> (r: Result<(), AuthError>)
    ensures
        r == match role {
            None => Err(AuthError::NotLoggedIn),
            Some(x) => if is_admin(role_of(x@)) {
                Ok(())
            } else {
                Err(AuthError::NotAdmin)
            },
        },
{
    match role {
        None => Err(AuthError::NotLoggedIn),
        Some(x) => {
            if Role::parse(x.as_str()).is_admin() {
                Ok(())
            } else {
                Err(AuthError::NotAdmin)
            }
        },
    }
}

} // verus!
