use vstd::prelude::*;

verus! {

/// A point in time without a time zone, as stored with each record.
#[verifier::external_type_specification]
#[verifier::external_body]
pub struct ExNaiveDateTime(chrono::NaiveDateTime);

/// Runtime status of a forwarding rule.
#[derive(Debug, Clone, Copy, PartialEq, Eq, Structural)]
pub enum RuleStatus {
    Stopped,
    Running,
}

/// The persisted spelling of a status.
pub open spec fn status_text(s: RuleStatus) -> Seq<char> {
    match s {
        RuleStatus::Running => "run"@,
        RuleStatus::Stopped => "stop"@,
    }
}

impl RuleStatus {
    /// The persisted spelling: `"run"` or `"stop"`.
    pub fn as_str(&self) -> (r: &'static str)
        ensures
            r@ == status_text(*self),
    {
        match self {
            RuleStatus::Running => "run",
            RuleStatus::Stopped => "stop",
        }
    }

    /// Reads a persisted spelling back; any other text is `None`.
    pub fn parse(s: &str) -> (r: Option<RuleStatus>)
        ensures
            r == (if s@ == "run"@ {
                Some(RuleStatus::Running)
            } else if s@ == "stop"@ {
                Some(RuleStatus::Stopped)
            } else {
                None
            }),
    {
        if crate::text::str_eq(s, "run") {
            Some(RuleStatus::Running)
        } else if crate::text::str_eq(s, "stop") {
            Some(RuleStatus::Stopped)
        } else {
            None
        }
    }
}

/// Role of an authenticated user.
#[derive(Debug, Clone, Copy, PartialEq, Eq, Structural)]
pub enum Role {
    SuperAdmin,
    Admin,
    User,
}

/// Which role a stored role name denotes; every unknown name is a plain user.
pub open spec fn role_of(s: Seq<char>) -> Role {
    if s == "super_admin"@ {
        Role::SuperAdmin
    } else if s == "admin"@ {
        Role::Admin
    } else {
        Role::User
    }
}

/// Admins and super admins may act on every rule.
pub open spec fn is_admin(r: Role) -> bool {
    r == Role::SuperAdmin || r == Role::Admin
}

impl Role {
    /// Reads a stored role name.
    pub fn parse(s: &str) -> (r: Role)
        ensures
            r == role_of(s@),
    {
        if crate::text::str_eq(s, "super_admin") {
            Role::SuperAdmin
        } else if crate::text::str_eq(s, "admin") {
            Role::Admin
        } else {
            Role::User
        }
    }

    /// Whether this role may act on rules owned by others.
    pub fn is_admin(&self) -> (r: bool)
        ensures
            r == is_admin(*self),
    {
        match self {
            Role::SuperAdmin | Role::Admin => true,
            Role::User => false,
        }
    }
}

/// An authenticated caller: who it is and with which role.
#[derive(Debug, Clone)]
pub struct Caller {
    pub username: String,
    pub role: Role,
}

/// A user account.
#[derive(Debug, Clone)]
pub struct User {
    pub id: i32,
    pub username: String,
    pub password: String,
    pub role: String,
    pub create_time: Option<chrono::NaiveDateTime>,
}

/// A forwarding rule: configuration, owner and runtime state.
#[derive(Debug, Clone)]
pub struct Rule {
    pub id: i32,
    pub username: String,
    pub local_port: i32,
    pub target: String,
    pub remark: Option<String>,
    pub pid: i32,
    pub status: RuleStatus,
    pub create_time: Option<chrono::NaiveDateTime>,
}

/// A copy of an optional text.
pub fn copy_text(s: &Option<String>) -> (r: Option<String>)
    ensures
        r == *s,
{
    match s {
        Some(t) => Some(t.clone()),
        None => None,
    }
}

impl Rule {
    /// A field-for-field copy.
    pub fn duplicate(&self) -> (r: Rule)
        ensures
            r == *self,
    {
        Rule {
            id: self.id,
            username: self.username.clone(),
            local_port: self.local_port,
            target: self.target.clone(),
            remark: copy_text(&self.remark),
            pid: self.pid,
            status: self.status,
            create_time: self.create_time,
        }
    }
}

/// Body of a request that adds a rule, as the caller typed it.
#[derive(Debug, Clone)]
pub struct AddRuleRequest {
    pub local_port: String,
    pub target: String,
    pub remark: Option<String>,
}

/// Body of a login request.
#[derive(Debug, Clone)]
pub struct LoginRequest {
    pub username: String,
    pub password: String,
}

/// The uniform reply envelope: `code` 0 on success, 1 on failure.
#[derive(Debug, Clone)]
pub struct ApiResponse<T> {
    pub code: i32,
    pub msg: String,
    pub data: Option<T>,
}

impl ApiResponse<()> {
    /// A success reply without data.
    pub fn success(msg: &str) -> (r: Self)
        ensures
            r.code == 0,
            r.msg@ == msg@,
            r.data.is_none(),
    {
        ApiResponse { code: 0, msg: msg.to_owned(), data: None }
    }

    /// A success reply that carries data.
    pub fn success_with_data<T>(data: T, msg: &str) -> (r: ApiResponse<T>)
        ensures
            r.code == 0,
            r.msg@ == msg@,
            r.data == Some(data),
    {
        ApiResponse { code: 0, msg: msg.to_owned(), data: Some(data) }
    }

    /// A failure reply.
    pub fn error(msg: &str) -> (r: Self)
        ensures
            r.code == 1,
            r.msg@ == msg@,
            r.data.is_none(),
    {
        ApiResponse { code: 1, msg: msg.to_owned(), data: None }
    }
}

} // verus!
