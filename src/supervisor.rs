use vstd::prelude::*;

use crate::models::{AddRuleRequest, ApiResponse, Caller, Rule, RuleStatus};
use crate::process::{bind_address, forwarder_args, SpawnError};
use crate::store::{
    has_id, holds_id, index_of, lemma_lookup_at, lookup, may_operate, port_taken, remove_id,
    remark_text, set_status, table_valid, with_status, RuleTable, StoreError, MAX_PORT, MIN_PORT,
};
use crate::text::{contains_char, i32_of, parse_i32};

verus! {

/// Why the supervisor refused or failed an operation.
#[derive(Debug, Clone, PartialEq, Eq)]
pub enum SupervisorError {
    /// The local port is not a decimal number.
    PortNotNumeric,
    /// The local port lies outside 1024 to 65535.
    PortOutOfRange,
    /// The target has no `:` between host and port.
    InvalidTarget,
    /// Another rule already listens on the local port.
    DuplicatePort,
    /// No more rule ids can be handed out.
    IdsExhausted,
    /// The request names no rule id.
    MissingRuleId,
    /// No rule has the id.
    NotFound,
    /// The caller may not act on the rule.
    Forbidden,
    /// The rule is already running.
    AlreadyRunning,
    /// The rule is not running.
    NotRunning,
    /// No live forwarder process could be started.
    Spawn(SpawnError),
    /// A process was started but its state could not be recorded; the process
    /// with this id must be terminated.
    Persist { pid: i32 },
}

/// The reply text for each error.
pub open spec fn error_text(e: SupervisorError) -> Seq<char> {
    match e {
        SupervisorError::PortNotNumeric => "端口必须是数字"@,
        SupervisorError::PortOutOfRange => "端口必须在1024-65535之间"@,
        SupervisorError::InvalidTarget => "目标地址格式错误（例：192.168.1.1:80）"@,
        SupervisorError::DuplicatePort => "本地端口已被使用"@,
        SupervisorError::IdsExhausted => "规则ID已用尽，无法新增规则"@,
        SupervisorError::MissingRuleId => "规则ID不能为空"@,
        SupervisorError::NotFound => "规则不存在"@,
        SupervisorError::Forbidden => "无权限操作该规则"@,
        SupervisorError::AlreadyRunning => "规则已在运行中"@,
        SupervisorError::NotRunning => "规则未在运行"@,
        SupervisorError::Spawn(SpawnError::Launch(m)) => "启动Realm进程失败："@ + m@,
        SupervisorError::Spawn(SpawnError::NoHandle) => "获取进程PID失败"@,
        SupervisorError::Spawn(SpawnError::ExitedImmediately) => "Realm进程启动后立即退出"@,
        SupervisorError::Persist { .. } => "规则启动成功，但更新状态失败"@,
    }
}

impl SupervisorError {
    /// The text a failure reply carries.
    pub fn message(&self) -> (r: String)
        ensures
            r@ == error_text(*self),
    {
        match self {
            SupervisorError::PortNotNumeric => String::from_str("端口必须是数字"),
            SupervisorError::PortOutOfRange => String::from_str(
                "端口必须在1024-65535之间",
            ),
            SupervisorError::InvalidTarget => String::from_str(
                "目标地址格式错误（例：192.168.1.1:80）",
            ),
            SupervisorError::DuplicatePort => String::from_str("本地端口已被使用"),
            SupervisorError::IdsExhausted => String::from_str("规则ID已用尽，无法新增规则"),
            SupervisorError::MissingRuleId => String::from_str("规则ID不能为空"),
            SupervisorError::NotFound => String::from_str("规则不存在"),
            SupervisorError::Forbidden => String::from_str("无权限操作该规则"),
            SupervisorError::AlreadyRunning => String::from_str("规则已在运行中"),
            SupervisorError::NotRunning => String::from_str("规则未在运行"),
            SupervisorError::Spawn(SpawnError::Launch(m)) => {
                let mut t = String::from_str("启动Realm进程失败：");
                t.append(m.as_str());
                t
            },
            SupervisorError::Spawn(SpawnError::NoHandle) => String::from_str(
                "获取进程PID失败",
            ),
            SupervisorError::Spawn(SpawnError::ExitedImmediately) => String::from_str(
                "Realm进程启动后立即退出",
            ),
            SupervisorError::Persist { .. } => String::from_str(
                "规则启动成功，但更新状态失败",
            ),
        }
    }
}

/// The failure reply for `e`.
pub fn error_reply(e: &SupervisorError) -> (r: ApiResponse<()>)
    ensures
        r.code == 1,
        r.msg@ == error_text(*e),
        r.data is None,
{
    ApiResponse { code: 1, msg: e.message(), data: None }
}

/// The rule id a request names: absent is an error; an id no `i32` can hold
/// names no rule.
pub fn rule_id_from(v: Option<i64>) -> (r: Result<i32, SupervisorError>)
    ensures
        r == (match v {
            None => Err(SupervisorError::MissingRuleId),
            Some(x) => if i32::MIN <= x <= i32::MAX {
                Ok(x as i32)
            } else {
                Err(SupervisorError::NotFound)
            },
        }),
{
    match v {
        None => Err(SupervisorError::MissingRuleId),
        Some(x) => {
            if x < -2147483648 || x > 2147483647 {
                Err(SupervisorError::NotFound)
            } else {
                Ok(x as i32)
            }
        },
    }
}

/// The port a request asks for, or why it is refused.
pub open spec fn port_check(text: Seq<char>) -> Result<i32, SupervisorError> {
    match i32_of(text) {
        None => Err(SupervisorError::PortNotNumeric),
        Some(p) => if MIN_PORT <= p <= MAX_PORT {
            Ok(p)
        } else {
            Err(SupervisorError::PortOutOfRange)
        },
    }
}

/// Checks the input of a new rule before the store sees it.
pub fn validate_rule_input(req: &AddRuleRequest) -> (r: Result<i32, SupervisorError>)
    ensures
        r == (match port_check(req.local_port@) {
            Err(e) => Err(e),
            Ok(p) => if req.target@.contains(':') {
                Ok(p)
            } else {
                Err(SupervisorError::InvalidTarget)
            },
        }),
{
    let port = match parse_i32(req.local_port.as_str()) {
        None => return Err(SupervisorError::PortNotNumeric),
        Some(p) => p,
    };
    if port < MIN_PORT || port > MAX_PORT {
        return Err(SupervisorError::PortOutOfRange);
    }
    if !contains_char(req.target.as_str(), ':') {
        return Err(SupervisorError::InvalidTarget);
    }
    Ok(port)
}

/// Validates a new rule and adds it, stopped, owned by `caller`.
pub fn add_rule(
    table: &mut RuleTable,
    caller: &Caller,
    req: &AddRuleRequest,
    create_time: Option<chrono::NaiveDateTime>,
) -> (r: Result<Rule, SupervisorError>)
    requires
        old(table).wf(),
    ensures
        final(table).wf(),
        r is Err ==> final(table)@ == old(table)@,
        port_check(req.local_port@) is Err ==> r == Err::<Rule, SupervisorError>(
            port_check(req.local_port@)->Err_0,
        ),
        port_check(req.local_port@) is Ok && !req.target@.contains(':') ==> r == Err::<
            Rule,
            SupervisorError,
        >(SupervisorError::InvalidTarget),
        port_check(req.local_port@) is Ok && req.target@.contains(':') ==> {
            let p = port_check(req.local_port@)->Ok_0;
            &&& port_taken(old(table)@, p) ==> r == Err::<Rule, SupervisorError>(
                SupervisorError::DuplicatePort,
            )
            &&& !port_taken(old(table)@, p) && old(table).next_id() == i32::MAX ==> r == Err::<
                Rule,
                SupervisorError,
            >(SupervisorError::IdsExhausted)
            &&& !port_taken(old(table)@, p) && old(table).next_id() < i32::MAX ==> {
                &&& r is Ok
                &&& r->Ok_0.id == old(table).next_id()
                &&& r->Ok_0.username@ == caller.username@
                &&& r->Ok_0.local_port == p
                &&& r->Ok_0.target@ == req.target@
                &&& r->Ok_0.remark is Some
                &&& r->Ok_0.remark->Some_0@ == remark_text(req.remark)
                &&& r->Ok_0.status == RuleStatus::Stopped
                &&& r->Ok_0.pid == 0
                &&& r->Ok_0.create_time == create_time
                &&& final(table)@ == old(table)@.push(r->Ok_0)
            }
        },
{
    let port = match validate_rule_input(req) {
        Err(e) => return Err(e),
        Ok(p) => p,
    };
    let remark = crate::models::copy_text(&req.remark);
    match table.create(caller.username.as_str(), port, req.target.as_str(), remark, create_time) {
        Ok(rule) => Ok(rule),
        Err(StoreError::DuplicatePort) => Err(SupervisorError::DuplicatePort),
        Err(_) => Err(SupervisorError::IdsExhausted),
    }
}

/// Which rule check fails first for `c` on rule `id`, if any: existence, then ownership.
pub open spec fn access_check(s: Seq<Rule>, c: Caller, id: i32) -> Result<Rule, SupervisorError> {
    match lookup(s, id) {
        None => Err(SupervisorError::NotFound),
        Some(r) => if may_operate(c, r.username@) {
            Ok(r)
        } else {
            Err(SupervisorError::Forbidden)
        },
    }
}

/// Whether a start of rule `id` by `c` may go on to launch a process.
pub open spec fn start_check(s: Seq<Rule>, c: Caller, id: i32) -> Result<Rule, SupervisorError> {
    match access_check(s, c, id) {
        Err(e) => Err(e),
        Ok(r) => if r.status == RuleStatus::Running {
            Err(SupervisorError::AlreadyRunning)
        } else {
            Ok(r)
        },
    }
}

/// What a stop of rule `id` by `c` returns: the handle to terminate, or why not.
pub open spec fn stop_result(s: Seq<Rule>, c: Caller, id: i32) -> Result<i32, SupervisorError> {
    match access_check(s, c, id) {
        Err(e) => Err(e),
        Ok(r) => if r.status == RuleStatus::Running {
            Ok(r.pid)
        } else {
            Err(SupervisorError::NotRunning)
        },
    }
}

/// The rules after a stop of rule `id` by `c`.
pub open spec fn stop_state(s: Seq<Rule>, c: Caller, id: i32) -> Seq<Rule> {
    if stop_result(s, c, id) is Ok {
        set_status(s, id, RuleStatus::Stopped, 0)
    } else {
        s
    }
}

/// What a delete of rule `id` by `c` returns: the handle to terminate if it was running.
pub open spec fn delete_result(s: Seq<Rule>, c: Caller, id: i32) -> Result<
    Option<i32>,
    SupervisorError,
> {
    match access_check(s, c, id) {
        Err(e) => Err(e),
        Ok(r) => Ok(
            if r.status == RuleStatus::Running {
                Some(r.pid)
            } else {
                None
            },
        ),
    }
}

/// The rules after a delete of rule `id` by `c`.
pub open spec fn delete_state(s: Seq<Rule>, c: Caller, id: i32) -> Seq<Rule> {
    if delete_result(s, c, id) is Ok {
        remove_id(s, id)
    } else {
        s
    }
}

/// What the second half of a start returns, given the launch and whether the
/// database recorded it.
pub open spec fn finish_result(
    s: Seq<Rule>,
    id: i32,
    spawned: Result<i32, SpawnError>,
    persisted: bool,
) -> Result<i32, SupervisorError> {
    match spawned {
        Err(e) => Err(SupervisorError::Spawn(e)),
        Ok(pid) => if pid <= 0 {
            Err(SupervisorError::Spawn(SpawnError::NoHandle))
        } else if persisted && has_id(s, id) {
            Ok(pid)
        } else {
            Err(SupervisorError::Persist { pid })
        },
    }
}

/// The rules after the second half of a start.
pub open spec fn finish_state(
    s: Seq<Rule>,
    id: i32,
    spawned: Result<i32, SpawnError>,
    persisted: bool,
) -> Seq<Rule> {
    match finish_result(s, id, spawned, persisted) {
        Ok(pid) => set_status(s, id, RuleStatus::Running, pid),
        Err(_) => s,
    }
}

proof fn lemma_access(s: Seq<Rule>, c: Caller, id: i32, i: int)
    requires
        table_valid(s),
        holds_id(s, id, i),
    ensures
        lookup(s, id) == Some(s[i]),
        index_of(s, id) == i,
        access_check(s, c, id) == (if may_operate(c, s[i].username@) {
            Ok::<Rule, SupervisorError>(s[i])
        } else {
            Err(SupervisorError::Forbidden)
        }),
{
    lemma_lookup_at(s, id, i);
}

/// Finds rule `id` and checks that `caller` may act on it.
fn authorize(table: &RuleTable, caller: &Caller, id: i32) -> (r: Result<usize, SupervisorError>)
    requires
        table.wf(),
    ensures
        match r {
            Ok(i) => holds_id(table@, id, i as int) && access_check(table@, *caller, id) == Ok::<
                Rule,
                SupervisorError,
            >(table@[i as int]),
            Err(e) => access_check(table@, *caller, id) == Err::<Rule, SupervisorError>(e),
        },
{
    proof {
        table.lemma_valid();
    }
    match table.position(id) {
        None => Err(SupervisorError::NotFound),
        Some(i) => {
            proof {
                lemma_access(table@, *caller, id, i as int);
            }
            let owner = &table.rule_at(i).username;
            if caller.role.is_admin() || crate::text::str_eq(
                owner.as_str(),
                caller.username.as_str(),
            ) {
                Ok(i)
            } else {
                Err(SupervisorError::Forbidden)
            }
        },
    }
}

/// First half of a start: checks that rule `id` exists, that `caller` may act on
/// it and that it is stopped, and returns the forwarder's arguments.
pub fn start_rule(table: &RuleTable, caller: &Caller, id: i32) -> (r: Result<
    Vec<String>,
    SupervisorError,
>)
    requires
        table.wf(),
    ensures
        match start_check(table@, *caller, id) {
            Err(e) => r == Err::<Vec<String>, SupervisorError>(e),
            Ok(rule) => r is Ok && r->Ok_0@.len() == 2 && r->Ok_0@[0]@ == bind_address(
                rule.local_port as nat,
            ) && r->Ok_0@[1]@ == rule.target@,
        },
{
    let i = match authorize(table, caller, id) {
        Err(e) => return Err(e),
        Ok(i) => i,
    };
    let rule = table.rule_at(i);
    if rule.status == RuleStatus::Running {
        return Err(SupervisorError::AlreadyRunning);
    }
    proof {
        table.lemma_valid();
        assert(crate::store::rule_valid(table@[i as int]));
    }
    Ok(forwarder_args(rule.local_port as u16, rule.target.as_str()))
}

/// Second half of a start, once the launch has been tried and, if it gave a
/// process, the database asked to record it: records the rule as running only
/// when both succeeded. A launched process that could not be recorded is
/// reported for termination.
pub fn finish_start(
    table: &mut RuleTable,
    id: i32,
    spawned: Result<i32, SpawnError>,
    persisted: bool,
) -> (r: Result<i32, SupervisorError>)
    requires
        old(table).wf(),
    ensures
        final(table).wf(),
        r == finish_result(old(table)@, id, spawned, persisted),
        final(table)@ == finish_state(old(table)@, id, spawned, persisted),
{
    match spawned {
        Err(e) => Err(SupervisorError::Spawn(e)),
        Ok(pid) => {
            if pid <= 0 {
                return Err(SupervisorError::Spawn(SpawnError::NoHandle));
            }
            if !persisted {
                return Err(SupervisorError::Persist { pid });
            }
            match table.set_runtime_status(id, RuleStatus::Running, pid) {
                Ok(()) => Ok(pid),
                Err(_) => Err(SupervisorError::Persist { pid }),
            }
        },
    }
}

/// Stops rule `id`: checks existence, ownership and that it runs, records it as
/// stopped with handle 0, and returns the handle whose process must be terminated.
pub fn stop_rule(table: &mut RuleTable, caller: &Caller, id: i32) -> (r: Result<
    i32,
    SupervisorError,
>)
    requires
        old(table).wf(),
    ensures
        final(table).wf(),
        r == stop_result(old(table)@, *caller, id),
        final(table)@ == stop_state(old(table)@, *caller, id),
{
    let i = match authorize(table, caller, id) {
        Err(e) => return Err(e),
        Ok(i) => i,
    };
    let rule = table.rule_at(i);
    if rule.status != RuleStatus::Running {
        return Err(SupervisorError::NotRunning);
    }
    let pid = rule.pid;
    let _ = table.set_runtime_status(id, RuleStatus::Stopped, 0);
    Ok(pid)
}

/// Deletes rule `id` after checking existence and ownership; returns the handle
/// whose process must be terminated if the rule was running.
pub fn delete_rule(table: &mut RuleTable, caller: &Caller, id: i32) -> (r: Result<
    Option<i32>,
    SupervisorError,
>)
    requires
        old(table).wf(),
    ensures
        final(table).wf(),
        r == delete_result(old(table)@, *caller, id),
        final(table)@ == delete_state(old(table)@, *caller, id),
{
    let i = match authorize(table, caller, id) {
        Err(e) => return Err(e),
        Ok(i) => i,
    };
    let rule = table.rule_at(i);
    let handle = if rule.status == RuleStatus::Running {
        Some(rule.pid)
    } else {
        None
    };
    let _ = table.delete(id);
    Ok(handle)
}

/// The rules that `caller` sees, most recent first.
pub fn list_rules(table: &RuleTable, caller: &Caller) -> (r: Vec<Rule>)
    ensures
        r@ == crate::store::listing(table@, *caller),
{
    table.list_for(caller)
}


/// One liveness check of a process that a running rule records.
#[derive(Debug, Clone, Copy, PartialEq, Eq, Structural)]
pub struct Observation {
    pub rule_id: i32,
    pub pid: i32,
    pub alive: bool,
}

/// Some observation found the process of `r` gone.
pub open spec fn observed_dead(obs: Seq<Observation>, r: Rule) -> bool {
    exists|k: int|
        0 <= k < obs.len() && obs[k] == (Observation { rule_id: r.id, pid: r.pid, alive: false })
}

/// `r` after reconciliation: stopped with handle 0 if it runs and its process was seen gone.
pub open spec fn reconciled_rule(r: Rule, obs: Seq<Observation>) -> Rule {
    if r.status == RuleStatus::Running && observed_dead(obs, r) {
        with_status(r, RuleStatus::Stopped, 0)
    } else {
        r
    }
}

pub open spec fn reconciled(s: Seq<Rule>, obs: Seq<Observation>) -> Seq<Rule> {
    Seq::new(s.len(), |i: int| reconciled_rule(s[i], obs))
}

/// The id and handle of every running rule, in store order.
pub open spec fn running(s: Seq<Rule>) -> Seq<(i32, i32)>
    decreases s.len(),
{
    if s.len() == 0 {
        Seq::empty()
    } else {
        let rest = running(s.drop_last());
        if s.last().status == RuleStatus::Running {
            rest.push((s.last().id, s.last().pid))
        } else {
            rest
        }
    }
}

/// The rules whose process the next reconciliation must check: id and handle of
/// every running rule.
pub fn running_handles(table: &RuleTable) -> (r: Vec<(i32, i32)>)
    ensures
        r@ == running(table@),
{
    let n = table.len();
    let mut out: Vec<(i32, i32)> = Vec::new();
    let mut i: usize = 0;
    while i < n
        invariant
            n == table@.len(),
            i <= n,
            out@ == running(table@.subrange(0, i as int)),
        decreases n - i,
    {
        let ghost next = table@.subrange(0, i + 1);
        assert(next.drop_last() == table@.subrange(0, i as int));
        let rule = table.rule_at(i);
        if rule.status == RuleStatus::Running {
            out.push((rule.id, rule.pid));
        }
        i = i + 1;
    }
    assert(table@.subrange(0, n as int) == table@);
    out
}

/// Rule `i` of `s` has id `id` and differs in `t`.
pub open spec fn changed_at(s: Seq<Rule>, t: Seq<Rule>, id: i32, i: int) -> bool {
    0 <= i < s.len() && s[i].id == id && t[i] != s[i]
}

/// Some rule with id `id` differs between `s` and `t`.
pub open spec fn was_changed(s: Seq<Rule>, t: Seq<Rule>, id: i32) -> bool {
    exists|i: int| changed_at(s, t, id, i)
}

/// One reconciliation pass over the liveness checks in `observed`: each rule that
/// runs and whose recorded process was seen gone is recorded as stopped with handle 0.
/// Returns the ids of the rules so changed, which must be persisted.
pub fn reconcile(table: &mut RuleTable, observed: &Vec<Observation>) -> (r: Vec<i32>)
    requires
        old(table).wf(),
    ensures
        final(table).wf(),
        final(table).next_id() == old(table).next_id(),
        final(table)@ == reconciled(old(table)@, observed@),
        forall|j: int|
            0 <= j < r@.len() ==> was_changed(old(table)@, final(table)@, #[trigger] r@[j]),
        forall|i: int|
            0 <= i < old(table)@.len() && final(table)@[i] != old(table)@[i] ==> r@.contains(
                old(table)@[i].id,
            ),
{
    let ghost s0 = table@;
    let ghost mut at: Seq<int> = Seq::empty();
    let mut changed: Vec<i32> = Vec::new();
    let n = observed.len();
    let mut k: usize = 0;
    while k < n
        invariant
            table.wf(),
            table.next_id() == old(table).next_id(),
            s0 == old(table)@,
            n == observed@.len(),
            k <= n,
            table@.len() == s0.len(),
            forall|i: int|
                0 <= i < s0.len() ==> #[trigger] table@[i] == reconciled_rule(
                    s0[i],
                    observed@.subrange(0, k as int),
                ),
            at.len() == changed@.len(),
            forall|j: int| 0 <= j < at.len() ==> changed_at(s0, table@, changed@[j], #[trigger] at[j]),
            forall|i: int|
                0 <= i < s0.len() && table@[i] != s0[i] ==> changed@.contains(s0[i].id),
        decreases n - k,
    {
        let o = observed[k];
        let ghost pre = observed@.subrange(0, k as int);
        let ghost post = observed@.subrange(0, k + 1);
        assert(post == pre.push(o));
        assert forall|r: Rule| #[trigger] observed_dead(post, r) == (observed_dead(pre, r) || o == (
        Observation { rule_id: r.id, pid: r.pid, alive: false })) by {
            if observed_dead(post, r) && !observed_dead(pre, r) {
                let w = choose|w: int|
                    0 <= w < post.len() && post[w] == (Observation {
                        rule_id: r.id,
                        pid: r.pid,
                        alive: false,
                    });
                if w < pre.len() {
                    assert(pre[w] == post[w]);
                }
            }
            if observed_dead(pre, r) {
                let w = choose|w: int|
                    0 <= w < pre.len() && pre[w] == (Observation {
                        rule_id: r.id,
                        pid: r.pid,
                        alive: false,
                    });
                assert(post[w] == pre[w]);
            }
            if o == (Observation { rule_id: r.id, pid: r.pid, alive: false }) {
                assert(post[k as int] == o);
            }
        }
        let ghost before = table@;
        proof {
            table.lemma_valid();
        }
        let mut hit = false;
        if !o.alive {
            match table.position(o.rule_id) {
                Some(m) => {
                    let rule = table.rule_at(m);
                    if rule.status == RuleStatus::Running && rule.pid == o.pid {
                        let ghost ch0 = changed@;
                        let ghost at0 = at;
                        let _ = table.set_runtime_status(o.rule_id, RuleStatus::Stopped, 0);
                        changed.push(o.rule_id);
                        proof {
                            at = at.push(m as int);
                        }
                        hit = true;
                        proof {
                            assert(before[m as int] == s0[m as int]);
                            assert forall|i: int| 0 <= i < s0.len() implies #[trigger] table@[i]
                                == reconciled_rule(s0[i], post) by {
                                if i != m {
                                    assert(s0[i].id != s0[m as int].id);
                                }
                            }
                            assert forall|j: int| 0 <= j < at.len() implies changed_at(
                                s0,
                                table@,
                                changed@[j],
                                #[trigger] at[j],
                            ) by {
                                if j < at0.len() {
                                    assert(at[j] == at0[j]);
                                    assert(changed@[j] == ch0[j]);
                                    assert(changed_at(s0, before, ch0[j], at0[j]));
                                }
                            }
                            assert forall|i: int|
                                0 <= i < s0.len() && table@[i] != s0[i] implies changed@.contains(
                                s0[i].id,
                            ) by {
                                if i == m {
                                    assert(changed@[changed@.len() - 1] == s0[i].id);
                                } else {
                                    assert(ch0.contains(s0[i].id));
                                    let j0 = choose|j: int| 0 <= j < ch0.len() && ch0[j] == s0[i].id;
                                    assert(changed@[j0] == ch0[j0]);
                                }
                            }
                        }
                    }
                },
                None => {},
            }
        }
        proof {
            if !hit {
                assert forall|i: int| 0 <= i < s0.len() implies #[trigger] table@[i]
                    == reconciled_rule(s0[i], post) by {
                    assert(table@[i] == reconciled_rule(s0[i], pre));
                    if o == (Observation { rule_id: s0[i].id, pid: s0[i].pid, alive: false }) {
                        assert(holds_id(table@, o.rule_id, i));
                    }
                }
            }
        }
        k = k + 1;
    }
    assert(observed@.subrange(0, n as int) == observed@);
    assert(table@ =~= reconciled(s0, observed@));
    assert forall|j: int| 0 <= j < changed@.len() implies was_changed(
        s0,
        table@,
        #[trigger] changed@[j],
    ) by {
        assert(changed_at(s0, table@, changed@[j], at[j]));
    }
    changed
}

/// Observation `o` calls for a stop: the process was seen gone and its rule still
/// runs with that handle.
pub open spec fn calls_for_stop(s: Seq<Rule>, o: Observation) -> bool {
    &&& !o.alive
    &&& lookup(s, o.rule_id) is Some
    &&& lookup(s, o.rule_id)->Some_0.status == RuleStatus::Running
    &&& lookup(s, o.rule_id)->Some_0.pid == o.pid
}

/// The observations that call for a stop, each to be written to durable storage
/// before it is recorded.
pub fn stops_needed(table: &RuleTable, observed: &Vec<Observation>) -> (r: Vec<Observation>)
    requires
        table.wf(),
    ensures
        forall|k: int|
            0 <= k < r@.len() ==> calls_for_stop(table@, #[trigger] r@[k]) && observed@.contains(
                r@[k],
            ),
        forall|k: int|
            0 <= k < observed@.len() && calls_for_stop(table@, #[trigger] observed@[k])
                ==> r@.contains(observed@[k]),
{
    proof {
        table.lemma_valid();
    }
    let mut out: Vec<Observation> = Vec::new();
    let n = observed.len();
    let mut k: usize = 0;
    while k < n
        invariant
            table.wf(),
            table_valid(table@),
            n == observed@.len(),
            k <= n,
            forall|j: int|
                0 <= j < out@.len() ==> calls_for_stop(table@, #[trigger] out@[j])
                    && observed@.contains(out@[j]),
            forall|j: int|
                0 <= j < k && calls_for_stop(table@, #[trigger] observed@[j]) ==> out@.contains(
                    observed@[j],
                ),
        decreases n - k,
    {
        let o = observed[k];
        let ghost out0 = out@;
        let mut take = false;
        if !o.alive {
            match table.position(o.rule_id) {
                Some(m) => {
                    proof {
                        lemma_lookup_at(table@, o.rule_id, m as int);
                    }
                    let rule = table.rule_at(m);
                    take = rule.status == RuleStatus::Running && rule.pid == o.pid;
                },
                None => {},
            }
        }
        assert(take == calls_for_stop(table@, o));
        if take {
            out.push(o);
        }
        proof {
            assert forall|j: int|
                0 <= j < out@.len() implies calls_for_stop(table@, #[trigger] out@[j])
                && observed@.contains(out@[j]) by {
                if j < out0.len() {
                    assert(out@[j] == out0[j]);
                } else {
                    assert(observed@[k as int] == o);
                }
            }
            assert forall|j: int|
                0 <= j < k + 1 && calls_for_stop(table@, #[trigger] observed@[j]) implies out@.contains(
                observed@[j],
            ) by {
                if j < k {
                    let w = choose|w: int| 0 <= w < out0.len() && out0[w] == observed@[j];
                    assert(out@[w] == out0[w]);
                } else {
                    assert(out@[out@.len() - 1] == o);
                }
            }
        }
        k = k + 1;
    }
    out
}

/// The stops among `stops` whose write succeeded: `written[k]` tells for `stops[k]`.
pub open spec fn written_stops(stops: Seq<Observation>, written: Seq<bool>) -> Seq<Observation>
    decreases stops.len(),
{
    if stops.len() == 0 {
        Seq::empty()
    } else {
        let rest = written_stops(stops.drop_last(), written);
        let k = stops.len() - 1;
        if k < written.len() && written[k] {
            rest.push(stops.last())
        } else {
            rest
        }
    }
}

/// Every stop kept was written.
proof fn lemma_written_from(stops: Seq<Observation>, written: Seq<bool>)
    ensures
        forall|m: int|
            0 <= m < written_stops(stops, written).len() ==> exists|j: int|
                0 <= j < stops.len() && j < written.len() && written[j] && stops[j]
                    == #[trigger] written_stops(stops, written)[m],
    decreases stops.len(),
{
    if stops.len() > 0 {
        let p = stops.drop_last();
        lemma_written_from(p, written);
        let rest = written_stops(p, written);
        let ws = written_stops(stops, written);
        assert forall|m: int| 0 <= m < ws.len() implies exists|j: int|
            0 <= j < stops.len() && j < written.len() && written[j] && stops[j]
                == #[trigger] ws[m] by {
            if m < rest.len() {
                assert(ws[m] == rest[m]);
                let j = choose|j: int|
                    0 <= j < p.len() && j < written.len() && written[j] && p[j]
                        == #[trigger] rest[m];
                assert(stops[j] == p[j]);
            } else {
                assert(ws[m] == stops[stops.len() - 1]);
            }
        }
    }
}

/// Records the stops whose write to durable storage succeeded (`written[k]` for
/// `stops[k]`). A stop that was not written is not recorded: its rule stays
/// running, so the next pass finds the process gone again and calls for the
/// stop once more. Returns the ids of the rules recorded as stopped.
pub fn record_stops(table: &mut RuleTable, stops: &Vec<Observation>, written: &Vec<bool>) -> (r:
    Vec<i32>)
    requires
        old(table).wf(),
    ensures
        final(table).wf(),
        final(table).next_id() == old(table).next_id(),
        final(table)@ == reconciled(old(table)@, written_stops(stops@, written@)),
        forall|j: int|
            0 <= j < r@.len() ==> was_changed(old(table)@, final(table)@, #[trigger] r@[j]),
        forall|i: int|
            0 <= i < old(table)@.len() && final(table)@[i] != old(table)@[i] ==> r@.contains(
                old(table)@[i].id,
            ),
{
    let mut kept: Vec<Observation> = Vec::new();
    let n = stops.len();
    let mut k: usize = 0;
    while k < n
        invariant
            n == stops@.len(),
            k <= n,
            kept@ == written_stops(stops@.subrange(0, k as int), written@),
        decreases n - k,
    {
        let ghost next = stops@.subrange(0, k + 1);
        assert(next.drop_last() == stops@.subrange(0, k as int));
        if k < written.len() && written[k] {
            kept.push(stops[k]);
        }
        k = k + 1;
    }
    assert(stops@.subrange(0, n as int) == stops@);
    reconcile(table, &kept)
}

/// A stop whose write failed leaves its rule running with the same handle, so that
/// the next pass, seeing the process gone again, calls for the stop again.
pub proof fn lemma_unwritten_stop_retried(
    s: Seq<Rule>,
    stops: Seq<Observation>,
    written: Seq<bool>,
    k: int,
)
    requires
        table_valid(s),
        0 <= k < stops.len(),
        !(k < written.len() && written[k]),
        calls_for_stop(s, stops[k]),
        forall|j: int| 0 <= j < stops.len() && j != k ==> stops[j].rule_id != stops[k].rule_id,
    ensures
        lookup(reconciled(s, written_stops(stops, written)), stops[k].rule_id) == lookup(
            s,
            stops[k].rule_id,
        ),
        calls_for_stop(reconciled(s, written_stops(stops, written)), stops[k]),
{
    let o = stops[k];
    let i = index_of(s, o.rule_id);
    assert(holds_id(s, o.rule_id, i));
    let ws = written_stops(stops, written);
    let t = reconciled(s, ws);
    lemma_written_from(stops, written);
    if observed_dead(ws, s[i]) {
        let m = choose|m: int|
            0 <= m < ws.len() && ws[m] == (Observation {
                rule_id: s[i].id,
                pid: s[i].pid,
                alive: false,
            });
        let j = choose|j: int|
            0 <= j < stops.len() && j < written.len() && written[j] && stops[j] == #[trigger] ws[m];
        assert(stops[j].rule_id == o.rule_id);
    }
    assert(t[i] == s[i]);
    assert forall|x: int| 0 <= x < s.len() implies #[trigger] t[x].id == s[x].id by {
        assert(t[x] == reconciled_rule(s[x], ws));
    }
    lemma_same_ids(s, t);
    lemma_lookup_at(t, o.rule_id, i);
}

/// Whether `caller` may delete rule `id`, and the handle to terminate if it runs;
/// the store is left as it is.
pub fn check_delete(table: &RuleTable, caller: &Caller, id: i32) -> (r: Result<
    Option<i32>,
    SupervisorError,
>)
    requires
        table.wf(),
    ensures
        r == delete_result(table@, *caller, id),
{
    let i = match authorize(table, caller, id) {
        Err(e) => return Err(e),
        Ok(i) => i,
    };
    let rule = table.rule_at(i);
    if rule.status == RuleStatus::Running {
        Ok(Some(rule.pid))
    } else {
        Ok(None)
    }
}

/// After a reconciliation pass that checked the process of every running rule,
/// with one answer per process, every rule still recorded as running was seen alive.
pub proof fn lemma_reconcile_leaves_only_live(s: Seq<Rule>, obs: Seq<Observation>)
    requires
        forall|i: int|
            0 <= i < s.len() && s[i].status == RuleStatus::Running ==> exists|k: int|
                0 <= k < obs.len() && obs[k].rule_id == s[i].id && obs[k].pid == s[i].pid,
        forall|k1: int, k2: int|
            0 <= k1 < obs.len() && 0 <= k2 < obs.len() && obs[k1].pid == obs[k2].pid
                ==> obs[k1].alive == obs[k2].alive,
    ensures
        forall|i: int|
            0 <= i < s.len() && (#[trigger] reconciled(s, obs)[i]).status == RuleStatus::Running
                ==> exists|k: int|
                0 <= k < obs.len() && obs[k] == (Observation {
                    rule_id: s[i].id,
                    pid: s[i].pid,
                    alive: true,
                }),
{
    assert forall|i: int|
        0 <= i < s.len() && (#[trigger] reconciled(s, obs)[i]).status
            == RuleStatus::Running implies exists|k: int|
        0 <= k < obs.len() && obs[k] == (Observation {
            rule_id: s[i].id,
            pid: s[i].pid,
            alive: true,
        }) by {
        assert(reconciled(s, obs)[i] == reconciled_rule(s[i], obs));
        assert(s[i].status == RuleStatus::Running);
        let k = choose|k: int|
            0 <= k < obs.len() && obs[k].rule_id == s[i].id && obs[k].pid == s[i].pid;
        if !obs[k].alive {
            assert(observed_dead(obs, s[i]));
        }
        assert(obs[k] == (Observation { rule_id: s[i].id, pid: s[i].pid, alive: true }));
    }
}

/// A sequence whose ids are those of `s`, index for index, keeps `s`'s id order.
proof fn lemma_same_ids(s: Seq<Rule>, t: Seq<Rule>)
    requires
        crate::store::ids_increasing(s),
        t.len() == s.len(),
        forall|i: int| 0 <= i < s.len() ==> #[trigger] t[i].id == s[i].id,
    ensures
        crate::store::ids_increasing(t),
{
    assert forall|i: int, j: int| 0 <= i < j < t.len() implies t[i].id < t[j].id by {
        assert(t[i].id == s[i].id);
        assert(t[j].id == s[j].id);
    }
}

/// Some running rule has this id and handle.
pub open spec fn runs_with(s: Seq<Rule>, handle: (i32, i32)) -> bool {
    exists|i: int|
        0 <= i < s.len() && s[i].status == RuleStatus::Running && handle == (s[i].id, s[i].pid)
}

/// The handles listed for checking are exactly those of the running rules.
pub proof fn lemma_running_lists_all(s: Seq<Rule>)
    ensures
        forall|i: int|
            0 <= i < s.len() && s[i].status == RuleStatus::Running ==> running(s).contains(
                (s[i].id, s[i].pid),
            ),
        forall|k: int| 0 <= k < running(s).len() ==> runs_with(s, #[trigger] running(s)[k]),
    decreases s.len(),
{
    if s.len() > 0 {
        let p = s.drop_last();
        lemma_running_lists_all(p);
        let rest = running(p);
        let last = s.len() - 1;
        assert forall|i: int|
            0 <= i < s.len() && s[i].status == RuleStatus::Running implies running(s).contains(
            (s[i].id, s[i].pid),
        ) by {
            if i == last {
                assert(running(s)[running(s).len() - 1] == (s[i].id, s[i].pid));
            } else {
                assert(p[i] == s[i]);
                assert(rest.contains((s[i].id, s[i].pid)));
                let k = choose|k: int| 0 <= k < rest.len() && rest[k] == (s[i].id, s[i].pid);
                assert(running(s)[k] == rest[k]);
            }
        }
        assert forall|k: int| 0 <= k < running(s).len() implies runs_with(
            s,
            #[trigger] running(s)[k],
        ) by {
            if k < rest.len() {
                assert(running(s)[k] == rest[k]);
                assert(runs_with(p, rest[k]));
                let i = choose|i: int|
                    0 <= i < p.len() && p[i].status == RuleStatus::Running && rest[k] == (
                        p[i].id,
                        p[i].pid,
                    );
                assert(p[i] == s[i]);
            } else {
                assert(s[last].status == RuleStatus::Running);
                assert(running(s)[k] == (s[last].id, s[last].pid));
            }
        }
    }
}

/// Stopping a rule twice: the first stop succeeds, the second finds it not running
/// and hands out no handle, so its process is terminated once.
pub proof fn lemma_stop_twice(s: Seq<Rule>, c: Caller, id: i32)
    requires
        table_valid(s),
        stop_result(s, c, id) is Ok,
    ensures
        stop_result(stop_state(s, c, id), c, id) == Err::<i32, SupervisorError>(
            SupervisorError::NotRunning,
        ),
{
    let i = index_of(s, id);
    assert(holds_id(s, id, i));
    let t = stop_state(s, c, id);
    assert(t[i] == with_status(s[i], RuleStatus::Stopped, 0));
    lemma_same_ids(s, t);
    lemma_lookup_at(t, id, i);
}

/// A rule that was started and whose process is then seen gone is stopped, with
/// handle 0, by the next reconciliation pass.
pub proof fn lemma_started_then_dead(
    s: Seq<Rule>,
    id: i32,
    pid: i32,
    obs: Seq<Observation>,
    k: int,
)
    requires
        table_valid(s),
        finish_result(s, id, Ok(pid), true) is Ok,
        0 <= k < obs.len(),
        obs[k] == (Observation { rule_id: id, pid: pid, alive: false }),
    ensures
        lookup(finish_state(s, id, Ok(pid), true), id) is Some,
        lookup(finish_state(s, id, Ok(pid), true), id)->Some_0.status == RuleStatus::Running,
        lookup(finish_state(s, id, Ok(pid), true), id)->Some_0.pid == pid,
        lookup(reconciled(finish_state(s, id, Ok(pid), true), obs), id) is Some,
        lookup(reconciled(finish_state(s, id, Ok(pid), true), obs), id)->Some_0.status
            == RuleStatus::Stopped,
        lookup(reconciled(finish_state(s, id, Ok(pid), true), obs), id)->Some_0.pid == 0,
{
    let i = index_of(s, id);
    assert(holds_id(s, id, i));
    let t = finish_state(s, id, Ok(pid), true);
    assert(t[i] == with_status(s[i], RuleStatus::Running, pid));
    lemma_same_ids(s, t);
    lemma_lookup_at(t, id, i);
    let u = reconciled(t, obs);
    assert(observed_dead(obs, t[i]));
    assert(u[i] == with_status(t[i], RuleStatus::Stopped, 0));
    assert forall|x: int| 0 <= x < t.len() implies #[trigger] u[x].id == t[x].id by {
        assert(u[x] == reconciled_rule(t[x], obs));
    }
    lemma_same_ids(t, u);
    lemma_lookup_at(u, id, i);
}

/// Ownership decides access alike for start, stop and delete: a caller that is not
/// an admin and does not own an existing rule is refused with `Forbidden` and changes
/// nothing; an admin, or the owner, is never refused on that account.
pub proof fn lemma_authorization(s: Seq<Rule>, c: Caller, id: i32)
    requires
        lookup(s, id) is Some,
    ensures
        !may_operate(c, lookup(s, id)->Some_0.username@) ==> {
            &&& start_check(s, c, id) == Err::<Rule, SupervisorError>(SupervisorError::Forbidden)
            &&& stop_result(s, c, id) == Err::<i32, SupervisorError>(SupervisorError::Forbidden)
            &&& stop_state(s, c, id) == s
            &&& delete_result(s, c, id) == Err::<Option<i32>, SupervisorError>(
                SupervisorError::Forbidden,
            )
            &&& delete_state(s, c, id) == s
        },
        may_operate(c, lookup(s, id)->Some_0.username@) ==> {
            &&& start_check(s, c, id) != Err::<Rule, SupervisorError>(SupervisorError::Forbidden)
            &&& stop_result(s, c, id) != Err::<i32, SupervisorError>(SupervisorError::Forbidden)
            &&& delete_result(s, c, id) is Ok
        },
        crate::models::is_admin(c.role) ==> may_operate(c, lookup(s, id)->Some_0.username@),
{
}

/// A start whose process was launched but could not be recorded leaves the rules
/// as they were, so a stopped rule stays stopped, and reports exactly that process
/// for termination.
pub proof fn lemma_compensation(s: Seq<Rule>, c: Caller, id: i32, pid: i32)
    requires
        pid > 0,
    ensures
        finish_result(s, id, Ok(pid), false) == Err::<i32, SupervisorError>(
            SupervisorError::Persist { pid },
        ),
        finish_state(s, id, Ok(pid), false) == s,
        start_check(s, c, id) is Ok ==> lookup(finish_state(s, id, Ok(pid), false), id)->Some_0.status
            == RuleStatus::Stopped,
{
}

} // verus!
