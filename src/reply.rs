use vstd::prelude::*;

use crate::auth::{auth_error_text, AuthError};
use crate::models::ApiResponse;

verus! {

/// The operations a caller can ask for.
#[derive(Debug, Clone, Copy, PartialEq, Eq, Structural)]
pub enum Operation {
    Login,
    Logout,
    ListRules,
    AddRule,
    StartRule,
    StopRule,
    DeleteRule,
}

/// The reply text of each operation that succeeded.
pub open spec fn success_text(op: Operation) -> Seq<char> {
    match op {
        Operation::Login => "登录成功"@,
        Operation::Logout => "登出成功"@,
        Operation::ListRules => "获取规则成功"@,
        Operation::AddRule => "规则添加成功"@,
        Operation::StartRule => "规则启动成功"@,
        Operation::StopRule => "规则停止成功"@,
        Operation::DeleteRule => "规则删除成功"@,
    }
}

impl Operation {
    /// The text a success reply to this operation carries.
    pub fn success_message(&self) -> (r: &'static str)
        ensures
            r@ == success_text(*self),
    {
        match self {
            Operation::Login => "登录成功",
            Operation::Logout => "登出成功",
            Operation::ListRules => "获取规则成功",
            Operation::AddRule => "规则添加成功",
            Operation::StartRule => "规则启动成功",
            Operation::StopRule => "规则停止成功",
            Operation::DeleteRule => "规则删除成功",
        }
    }
}

/// The success reply to `op`, without data.
pub fn success_reply(op: Operation) -> (r: ApiResponse<()>)
    ensures
        r.code == 0,
        r.msg@ == success_text(op),
        r.data is None,
{
    ApiResponse::success(op.success_message())
}

/// The success reply to a listing, carrying the rules.
pub fn rules_reply<T>(rules: T) -> (r: ApiResponse<T>)
    ensures
        r.code == 0,
        r.msg@ == success_text(Operation::ListRules),
        r.data == Some(rules),
{
    ApiResponse::success_with_data(rules, Operation::ListRules.success_message())
}

/// The failure reply for a refusal before the supervisor.
pub fn auth_error_reply<T>(e: AuthError) -> (r: ApiResponse<T>)
    ensures
        r.code == 1,
        r.msg@ == auth_error_text(e),
        r.data is None,
{
    ApiResponse { code: 1, msg: e.message().to_owned(), data: None }
}

} // verus!
