use realm_web::auth::{
    check_rule_owner, current_caller, get_current_user, login_session, require_admin,
    require_login, validate_login, AuthError,
};
use realm_web::models::{AddRuleRequest, ApiResponse, Caller, LoginRequest, Role, RuleStatus, User};
use realm_web::claims::Claims;
use realm_web::reply::{auth_error_reply, rules_reply, success_reply, Operation};
use realm_web::store::RuleTable;
use realm_web::supervisor::add_rule;
use realm_web::process::{
    forwarder_args, signallable, spawn_outcome, terminate_step, Signal, SignalOutcome,
    SpawnError, TerminateAction, TerminateError,
};
use realm_web::text::{contains_char, parse_i32, push_decimal, str_eq};

#[test]
fn api_response_constructors() {
    let ok = ApiResponse::success("done");
    assert_eq!(ok.code, 0);
    assert_eq!(ok.msg, "done");
    assert!(ok.data.is_none());
    let err = ApiResponse::error("bad");
    assert_eq!(err.code, 1);
    assert_eq!(err.msg, "bad");
    let with = ApiResponse::success_with_data(vec![1, 2], "rules");
    assert_eq!(with.code, 0);
    assert_eq!(with.data, Some(vec![1, 2]));
}

#[test]
fn status_spelling_round_trip() {
    assert_eq!(RuleStatus::Running.as_str(), "run");
    assert_eq!(RuleStatus::Stopped.as_str(), "stop");
    assert_eq!(RuleStatus::parse("run"), Some(RuleStatus::Running));
    assert_eq!(RuleStatus::parse("stop"), Some(RuleStatus::Stopped));
    assert_eq!(RuleStatus::parse("running"), None);
}

#[test]
fn role_names() {
    assert_eq!(Role::parse("super_admin"), Role::SuperAdmin);
    assert_eq!(Role::parse("admin"), Role::Admin);
    assert_eq!(Role::parse("user"), Role::User);
    assert_eq!(Role::parse("Admin"), Role::User);
    assert!(Role::Admin.is_admin());
    assert!(!Role::User.is_admin());
}

#[test]
fn owner_check() {
    let admin = Some(("root".to_string(), "admin".to_string()));
    let alice = Some(("alice".to_string(), "user".to_string()));
    assert!(check_rule_owner(&admin, "alice"));
    assert!(check_rule_owner(&alice, "alice"));
    assert!(!check_rule_owner(&alice, "bob"));
    assert!(!check_rule_owner(&None, "alice"));
}

#[test]
fn session_values() {
    assert_eq!(
        get_current_user(Some("a".to_string()), Some("user".to_string())),
        Some(("a".to_string(), "user".to_string()))
    );
    assert_eq!(get_current_user(Some("a".to_string()), None), None);
    let c = current_caller(Some("a".to_string()), Some("super_admin".to_string())).unwrap();
    assert_eq!(c.username, "a");
    assert_eq!(c.role, Role::SuperAdmin);
    assert!(current_caller(None, Some("admin".to_string())).is_none());
}

#[test]
fn login_checks() {
    let empty = LoginRequest { username: String::new(), password: "x".to_string() };
    assert_eq!(validate_login(&empty), Err(AuthError::MissingCredentials));
    let full = LoginRequest { username: "a".to_string(), password: "x".to_string() };
    assert_eq!(validate_login(&full), Ok(()));
    assert_eq!(login_session(Ok(None)), Err(AuthError::BadCredentials));
    assert_eq!(login_session(Err(())), Err(AuthError::Internal));
    let u = User {
        id: 3,
        username: "a".to_string(),
        password: "x".to_string(),
        role: "admin".to_string(),
        create_time: None,
    };
    assert_eq!(login_session(Ok(Some(u))), Ok((3, "a".to_string(), "admin".to_string())));
    assert_eq!(AuthError::BadCredentials.message(), "用户名或密码错误");
    assert_eq!(AuthError::MissingCredentials.message(), "用户名和密码不能为空");
    assert_eq!(AuthError::NotLoggedIn.message(), "未登录，请先登录");
    assert_eq!(AuthError::NotAdmin.message(), "无权限执行此操作");
}

#[test]
fn gates() {
    assert_eq!(require_login(&None), Err(AuthError::NotLoggedIn));
    assert_eq!(require_login(&Some("a".to_string())), Ok(()));
    assert_eq!(require_admin(&None), Err(AuthError::NotLoggedIn));
    assert_eq!(require_admin(&Some("user".to_string())), Err(AuthError::NotAdmin));
    assert_eq!(require_admin(&Some("super_admin".to_string())), Ok(()));
}

#[test]
fn forwarder_arguments() {
    assert_eq!(forwarder_args(8080, "10.0.0.5:443"), vec!["0.0.0.0:8080".to_string(), "10.0.0.5:443".to_string()]);
    assert_eq!(forwarder_args(65535, "h:1")[0], "0.0.0.0:65535");
    assert_eq!(forwarder_args(1024, "h:1")[0], "0.0.0.0:1024");
}

#[test]
fn spawn_outcomes() {
    assert_eq!(spawn_outcome(None, true), Err(SpawnError::NoHandle));
    assert_eq!(spawn_outcome(Some(0), true), Err(SpawnError::NoHandle));
    assert_eq!(spawn_outcome(Some(3_000_000_000), true), Err(SpawnError::NoHandle));
    assert_eq!(spawn_outcome(Some(42), false), Err(SpawnError::ExitedImmediately));
    assert_eq!(spawn_outcome(Some(42), true), Ok(42));
}

#[test]
fn termination_escalates_once() {
    assert_eq!(terminate_step(9, None), TerminateAction::Send(Signal::Graceful));
    assert_eq!(
        terminate_step(9, Some((Signal::Graceful, SignalOutcome::Delivered))),
        TerminateAction::Finish(Ok(()))
    );
    assert_eq!(
        terminate_step(9, Some((Signal::Graceful, SignalOutcome::Refused(13)))),
        TerminateAction::Send(Signal::Forceful)
    );
    assert_eq!(
        terminate_step(9, Some((Signal::Graceful, SignalOutcome::NoSuchProcess))),
        TerminateAction::Send(Signal::Forceful)
    );
    assert_eq!(
        terminate_step(9, Some((Signal::Forceful, SignalOutcome::NoSuchProcess))),
        TerminateAction::Finish(Ok(()))
    );
    assert_eq!(
        terminate_step(9, Some((Signal::Forceful, SignalOutcome::Refused(13)))),
        TerminateAction::Finish(Err(TerminateError { pid: 9, errno: 13 }))
    );
    assert!(signallable(1));
    assert!(!signallable(0));
    assert!(!signallable(-5));
}

#[test]
fn text_helpers() {
    assert!(str_eq("abc", "abc"));
    assert!(!str_eq("abc", "abd"));
    assert!(!str_eq("abc", "ab"));
    assert!(contains_char("a:b", ':'));
    assert!(!contains_char("ab", ':'));
    assert_eq!(parse_i32("2147483647"), Some(2147483647));
    assert_eq!(parse_i32("-2147483648"), Some(-2147483648));
    assert_eq!(parse_i32("2147483648"), None);
    assert_eq!(parse_i32("-"), None);
    assert_eq!(parse_i32("12a"), None);
    assert_eq!(parse_i32("007"), Some(7));
    let mut s = "port ".to_string();
    push_decimal(&mut s, 0);
    push_decimal(&mut s, 4096);
    assert_eq!(s, "port 04096");
}


fn stored(id: i32, port: i32, status: RuleStatus, pid: i32) -> realm_web::models::Rule {
    realm_web::models::Rule {
        id,
        username: "alice".to_string(),
        local_port: port,
        target: "h:1".to_string(),
        remark: None,
        pid,
        status,
        create_time: None,
    }
}

#[test]
fn restore_checks_invariant() {
    let t = RuleTable::restore(vec![
        stored(2, 8000, RuleStatus::Stopped, 0),
        stored(5, 8001, RuleStatus::Running, 40),
    ])
    .unwrap();
    assert_eq!(t.len(), 2);
    assert_eq!(t.get_by_id(5).unwrap().pid, 40);
    assert!(RuleTable::restore(vec![]).is_some());
    assert!(RuleTable::restore(vec![stored(2, 8000, RuleStatus::Stopped, 0), stored(3, 8000, RuleStatus::Stopped, 0)]).is_none());
    assert!(RuleTable::restore(vec![stored(3, 8000, RuleStatus::Stopped, 0), stored(2, 8001, RuleStatus::Stopped, 0)]).is_none());
    assert!(RuleTable::restore(vec![stored(1, 8000, RuleStatus::Running, 0)]).is_none());
    assert!(RuleTable::restore(vec![stored(1, 8000, RuleStatus::Stopped, 7)]).is_none());
    assert!(RuleTable::restore(vec![stored(1, 80, RuleStatus::Stopped, 0)]).is_none());
    assert!(RuleTable::restore(vec![stored(i32::MAX, 8000, RuleStatus::Stopped, 0)]).is_none());
}

#[test]
fn restored_store_continues_ids() {
    let mut t = RuleTable::restore(vec![stored(7, 8000, RuleStatus::Stopped, 0)]).unwrap();
    let caller = Caller { username: "bob".to_string(), role: Role::User };
    let req = AddRuleRequest { local_port: "8001".to_string(), target: "x:2".to_string(), remark: None };
    assert_eq!(add_rule(&mut t, &caller, &req, None).unwrap().id, 8);
}

#[test]
fn one_change_per_rule_at_a_time() {
    let mut c = Claims::new();
    assert!(!c.is_claimed(4));
    assert!(c.try_claim(4));
    assert!(c.is_claimed(4));
    assert!(!c.try_claim(4));
    assert!(c.try_claim(5));
    c.release(4);
    assert!(!c.is_claimed(4));
    assert!(c.is_claimed(5));
    assert!(c.try_claim(4));
}

#[test]
fn success_replies_carry_operation_texts() {
    let cases = [
        (Operation::Login, "登录成功"),
        (Operation::Logout, "登出成功"),
        (Operation::AddRule, "规则添加成功"),
        (Operation::StartRule, "规则启动成功"),
        (Operation::StopRule, "规则停止成功"),
        (Operation::DeleteRule, "规则删除成功"),
    ];
    for (op, text) in cases {
        let r = success_reply(op);
        assert_eq!(r.code, 0);
        assert_eq!(r.msg, text);
        assert!(r.data.is_none());
    }
    let listed = rules_reply(vec![3, 1]);
    assert_eq!(listed.code, 0);
    assert_eq!(listed.msg, "获取规则成功");
    assert_eq!(listed.data, Some(vec![3, 1]));
    let refused: ApiResponse<Vec<i32>> = auth_error_reply(AuthError::NoSession);
    assert_eq!(refused.code, 1);
    assert_eq!(refused.msg, "未登录");
    assert!(refused.data.is_none());
}
