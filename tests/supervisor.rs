use realm_web::models::{AddRuleRequest, Caller, Role, RuleStatus};
use realm_web::process::{spawn_outcome, SpawnError};
use realm_web::store::RuleTable;
use realm_web::supervisor::{
    add_rule, check_delete, delete_rule, error_reply, record_stops, stops_needed, finish_start, list_rules, reconcile, rule_id_from,
    running_handles, start_rule, stop_rule, validate_rule_input, Observation, SupervisorError,
};

fn user(name: &str) -> Caller {
    Caller { username: name.to_string(), role: Role::User }
}

fn admin() -> Caller {
    Caller { username: "root".to_string(), role: Role::Admin }
}

fn request(port: &str, target: &str) -> AddRuleRequest {
    AddRuleRequest { local_port: port.to_string(), target: target.to_string(), remark: None }
}

fn add(table: &mut RuleTable, owner: &Caller, port: &str, target: &str) -> i32 {
    add_rule(table, owner, &request(port, target), None).expect("rule added").id
}

#[test]
fn end_to_end_start_kill_reconcile() {
    let mut table = RuleTable::new();
    let alice = user("alice");
    let rule = add_rule(&mut table, &alice, &request("8080", "10.0.0.5:443"), None).unwrap();
    assert_eq!(rule.status, RuleStatus::Stopped);
    assert_eq!(rule.pid, 0);
    assert_eq!(rule.local_port, 8080);

    let args = start_rule(&table, &alice, rule.id).unwrap();
    assert_eq!(args, vec!["0.0.0.0:8080".to_string(), "10.0.0.5:443".to_string()]);
    assert_eq!(finish_start(&mut table, rule.id, Ok(4321), true), Ok(4321));
    let now = table.get_by_id(rule.id).unwrap();
    assert_eq!(now.status, RuleStatus::Running);
    assert!(now.pid > 0);

    let handles = running_handles(&table);
    assert_eq!(handles, vec![(rule.id, 4321)]);
    let seen = vec![Observation { rule_id: rule.id, pid: 4321, alive: false }];
    assert_eq!(reconcile(&mut table, &seen), vec![rule.id]);
    let after = table.get_by_id(rule.id).unwrap();
    assert_eq!(after.status, RuleStatus::Stopped);
    assert_eq!(after.pid, 0);
}

#[test]
fn duplicate_port_is_refused() {
    let mut table = RuleTable::new();
    add(&mut table, &user("alice"), "9000", "a:1");
    let again = add_rule(&mut table, &user("bob"), &request("9000", "b:2"), None);
    assert_eq!(again.unwrap_err(), SupervisorError::DuplicatePort);
    assert_eq!(table.len(), 1);
    add(&mut table, &user("bob"), "9001", "b:2");
    assert_eq!(table.len(), 2);
}

#[test]
fn stop_twice_then_not_running() {
    let mut table = RuleTable::new();
    let alice = user("alice");
    let id = add(&mut table, &alice, "7000", "h:7");
    assert_eq!(finish_start(&mut table, id, Ok(99), true), Ok(99));
    assert_eq!(stop_rule(&mut table, &alice, id), Ok(99));
    assert_eq!(stop_rule(&mut table, &alice, id), Err(SupervisorError::NotRunning));
    let r = table.get_by_id(id).unwrap();
    assert_eq!(r.status, RuleStatus::Stopped);
    assert_eq!(r.pid, 0);
}

#[test]
fn reconcile_keeps_live_processes() {
    let mut table = RuleTable::new();
    let alice = user("alice");
    let a = add(&mut table, &alice, "7001", "h:1");
    let b = add(&mut table, &alice, "7002", "h:2");
    finish_start(&mut table, a, Ok(11), true).unwrap();
    finish_start(&mut table, b, Ok(12), true).unwrap();
    let seen = vec![
        Observation { rule_id: a, pid: 11, alive: true },
        Observation { rule_id: b, pid: 12, alive: false },
    ];
    assert_eq!(reconcile(&mut table, &seen), vec![b]);
    assert_eq!(table.get_by_id(a).unwrap().status, RuleStatus::Running);
    assert_eq!(table.get_by_id(b).unwrap().status, RuleStatus::Stopped);
    assert_eq!(running_handles(&table), vec![(a, 11)]);
}

#[test]
fn reconcile_ignores_stale_handle() {
    let mut table = RuleTable::new();
    let alice = user("alice");
    let a = add(&mut table, &alice, "7003", "h:3");
    finish_start(&mut table, a, Ok(21), true).unwrap();
    let seen = vec![Observation { rule_id: a, pid: 20, alive: false }];
    assert_eq!(reconcile(&mut table, &seen), Vec::<i32>::new());
    assert_eq!(table.get_by_id(a).unwrap().pid, 21);
}

#[test]
fn authorization_by_owner_and_role() {
    let mut table = RuleTable::new();
    let alice = user("alice");
    let bob = user("bob");
    let id = add(&mut table, &alice, "7100", "h:1");
    assert_eq!(start_rule(&table, &bob, id), Err(SupervisorError::Forbidden));
    assert_eq!(stop_rule(&mut table, &bob, id), Err(SupervisorError::Forbidden));
    assert_eq!(delete_rule(&mut table, &bob, id), Err(SupervisorError::Forbidden));
    assert_eq!(table.len(), 1);
    assert!(start_rule(&table, &alice, id).is_ok());
    assert!(start_rule(&table, &admin(), id).is_ok());
    let boss = Caller { username: "boss".to_string(), role: Role::SuperAdmin };
    finish_start(&mut table, id, Ok(5), true).unwrap();
    assert_eq!(stop_rule(&mut table, &boss, id), Ok(5));
    assert_eq!(delete_rule(&mut table, &admin(), id), Ok(None));
    assert_eq!(table.len(), 0);
}

#[test]
fn persist_failure_compensates() {
    let mut table = RuleTable::new();
    let alice = user("alice");
    let id = add(&mut table, &alice, "7200", "h:1");
    assert_eq!(finish_start(&mut table, id, Ok(77), false), Err(SupervisorError::Persist { pid: 77 }));
    let r = table.get_by_id(id).unwrap();
    assert_eq!(r.status, RuleStatus::Stopped);
    assert_eq!(r.pid, 0);
}

#[test]
fn spawn_failure_leaves_rule_stopped() {
    let mut table = RuleTable::new();
    let alice = user("alice");
    let id = add(&mut table, &alice, "7300", "h:1");
    let spawned = spawn_outcome(Some(31), false);
    assert_eq!(spawned, Err(SpawnError::ExitedImmediately));
    assert_eq!(
        finish_start(&mut table, id, spawned, false),
        Err(SupervisorError::Spawn(SpawnError::ExitedImmediately))
    );
    assert_eq!(table.get_by_id(id).unwrap().status, RuleStatus::Stopped);
    let launch = finish_start(&mut table, id, Err(SpawnError::Launch("no such file".to_string())), false);
    let e = launch.unwrap_err();
    assert_eq!(e.message(), "启动Realm进程失败：no such file");
}

#[test]
fn start_running_rule_is_refused() {
    let mut table = RuleTable::new();
    let alice = user("alice");
    let id = add(&mut table, &alice, "7400", "h:1");
    finish_start(&mut table, id, Ok(8), true).unwrap();
    assert_eq!(start_rule(&table, &alice, id), Err(SupervisorError::AlreadyRunning));
}

#[test]
fn unknown_rule_is_not_found() {
    let mut table = RuleTable::new();
    let alice = user("alice");
    assert_eq!(start_rule(&table, &alice, 3), Err(SupervisorError::NotFound));
    assert_eq!(stop_rule(&mut table, &alice, 3), Err(SupervisorError::NotFound));
    assert_eq!(delete_rule(&mut table, &alice, 3), Err(SupervisorError::NotFound));
    assert_eq!(finish_start(&mut table, 3, Ok(4), true), Err(SupervisorError::Persist { pid: 4 }));
}

#[test]
fn delete_running_rule_hands_back_handle() {
    let mut table = RuleTable::new();
    let alice = user("alice");
    let id = add(&mut table, &alice, "7500", "h:1");
    finish_start(&mut table, id, Ok(55), true).unwrap();
    assert_eq!(delete_rule(&mut table, &alice, id), Ok(Some(55)));
    assert!(table.get_by_id(id).is_none());
    // the port is free again
    add(&mut table, &alice, "7500", "h:1");
}

#[test]
fn listing_is_scoped_and_most_recent_first() {
    let mut table = RuleTable::new();
    let alice = user("alice");
    let bob = user("bob");
    let a1 = add(&mut table, &alice, "8001", "h:1");
    let b1 = add(&mut table, &bob, "8002", "h:2");
    let a2 = add(&mut table, &alice, "8003", "h:3");
    let mine: Vec<i32> = list_rules(&table, &alice).iter().map(|r| r.id).collect();
    assert_eq!(mine, vec![a2, a1]);
    let all: Vec<i32> = list_rules(&table, &admin()).iter().map(|r| r.id).collect();
    assert_eq!(all, vec![a2, b1, a1]);
    let none: Vec<i32> = list_rules(&table, &user("carol")).iter().map(|r| r.id).collect();
    assert!(none.is_empty());
}

#[test]
fn input_validation_errors() {
    assert_eq!(validate_rule_input(&request("abc", "h:1")), Err(SupervisorError::PortNotNumeric));
    assert_eq!(validate_rule_input(&request("", "h:1")), Err(SupervisorError::PortNotNumeric));
    assert_eq!(validate_rule_input(&request("99999999999", "h:1")), Err(SupervisorError::PortNotNumeric));
    assert_eq!(validate_rule_input(&request("1023", "h:1")), Err(SupervisorError::PortOutOfRange));
    assert_eq!(validate_rule_input(&request("65536", "h:1")), Err(SupervisorError::PortOutOfRange));
    assert_eq!(validate_rule_input(&request("-8080", "h:1")), Err(SupervisorError::PortOutOfRange));
    assert_eq!(validate_rule_input(&request("8080", "host")), Err(SupervisorError::InvalidTarget));
    assert_eq!(validate_rule_input(&request("1024", "h:1")), Ok(1024));
    assert_eq!(validate_rule_input(&request("65535", "h:1")), Ok(65535));
    assert_eq!(validate_rule_input(&request("+8080", "h:1")), Ok(8080));
}

#[test]
fn rule_id_from_request() {
    assert_eq!(rule_id_from(None), Err(SupervisorError::MissingRuleId));
    assert_eq!(rule_id_from(Some(12)), Ok(12));
    assert_eq!(rule_id_from(Some(1i64 << 32)), Err(SupervisorError::NotFound));
}

#[test]
fn error_reply_envelope() {
    let r = error_reply(&SupervisorError::Forbidden);
    assert_eq!(r.code, 1);
    assert_eq!(r.msg, "无权限操作该规则");
    assert!(r.data.is_none());
}

#[test]
fn remark_and_owner_are_kept() {
    let mut table = RuleTable::new();
    let alice = user("alice");
    let req = AddRuleRequest {
        local_port: "8100".to_string(),
        target: "example.org:22".to_string(),
        remark: Some("ssh".to_string()),
    };
    let r = add_rule(&mut table, &alice, &req, None).unwrap();
    assert_eq!(r.id, 1);
    assert_eq!(r.username, "alice");
    assert_eq!(r.remark.as_deref(), Some("ssh"));
    let again = table.get_by_id(r.id).unwrap();
    assert_eq!(again.target, "example.org:22");
    assert_eq!(add(&mut table, &alice, "8101", "x:1"), 2);
}

#[test]
fn add_rule_refusal_texts() {
    let mut table = RuleTable::new();
    let alice = user("alice");
    let text = |t: &mut RuleTable, port: &str, target: &str| {
        error_reply(&add_rule(t, &alice, &request(port, target), None).unwrap_err()).msg
    };
    assert_eq!(text(&mut table, "1023", "10.0.0.5:443"), "端口必须在1024-65535之间");
    assert_eq!(text(&mut table, "65536", "10.0.0.5:443"), "端口必须在1024-65535之间");
    assert_eq!(text(&mut table, "abc", "10.0.0.5:443"), "端口必须是数字");
    assert_eq!(text(&mut table, "8080", "10.0.0.5"), "目标地址格式错误（例：192.168.1.1:80）");
    assert_eq!(table.len(), 0);
    add(&mut table, &alice, "8080", "10.0.0.5:443");
    assert_eq!(text(&mut table, "8080", "h:1"), "本地端口已被使用");
    assert_eq!(SupervisorError::MissingRuleId.message(), "规则ID不能为空");
    assert_eq!(SupervisorError::NotFound.message(), "规则不存在");
    assert_eq!(SupervisorError::AlreadyRunning.message(), "规则已在运行中");
    assert_eq!(SupervisorError::Spawn(SpawnError::NoHandle).message(), "获取进程PID失败");
    assert_eq!(SupervisorError::Spawn(SpawnError::ExitedImmediately).message(), "Realm进程启动后立即退出");
    assert_eq!(SupervisorError::Persist { pid: 3 }.message(), "规则启动成功，但更新状态失败");
}

#[test]
fn unwritten_stop_is_retried_next_pass() {
    let mut table = RuleTable::new();
    let alice = user("alice");
    let a = add(&mut table, &alice, "7601", "h:1");
    let b = add(&mut table, &alice, "7602", "h:2");
    let c = add(&mut table, &alice, "7603", "h:3");
    finish_start(&mut table, a, Ok(31), true).unwrap();
    finish_start(&mut table, b, Ok(32), true).unwrap();
    finish_start(&mut table, c, Ok(33), true).unwrap();
    let seen = vec![
        Observation { rule_id: a, pid: 31, alive: false },
        Observation { rule_id: b, pid: 32, alive: false },
        Observation { rule_id: c, pid: 33, alive: true },
    ];
    let stops = stops_needed(&table, &seen);
    assert_eq!(stops, vec![seen[0], seen[1]]);
    // the write for rule a fails, the one for rule b succeeds
    assert_eq!(record_stops(&mut table, &stops, &vec![false, true]), vec![b]);
    assert_eq!(table.get_by_id(a).unwrap().status, RuleStatus::Running);
    assert_eq!(table.get_by_id(a).unwrap().pid, 31);
    assert_eq!(table.get_by_id(b).unwrap().status, RuleStatus::Stopped);
    assert_eq!(table.get_by_id(c).unwrap().status, RuleStatus::Running);
    // next pass: rule a is called for again
    let again = stops_needed(&table, &seen);
    assert_eq!(again, vec![seen[0]]);
    assert_eq!(record_stops(&mut table, &again, &vec![true]), vec![a]);
    let r = table.get_by_id(a).unwrap();
    assert_eq!(r.status, RuleStatus::Stopped);
    assert_eq!(r.pid, 0);
}

#[test]
fn check_delete_changes_nothing() {
    let mut table = RuleTable::new();
    let alice = user("alice");
    let id = add(&mut table, &alice, "7701", "h:1");
    finish_start(&mut table, id, Ok(41), true).unwrap();
    assert_eq!(check_delete(&table, &alice, id), Ok(Some(41)));
    assert_eq!(check_delete(&table, &user("bob"), id), Err(SupervisorError::Forbidden));
    assert_eq!(check_delete(&table, &alice, 99), Err(SupervisorError::NotFound));
    assert_eq!(table.len(), 1);
}

#[test]
fn absent_remark_is_stored_empty() {
    let mut table = RuleTable::new();
    let r = add_rule(&mut table, &user("alice"), &request("8200", "h:1"), None).unwrap();
    assert_eq!(r.remark.as_deref(), Some(""));
    assert_eq!(table.get_by_id(r.id).unwrap().remark.as_deref(), Some(""));
}
