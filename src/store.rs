use vstd::prelude::*;

use crate::models::{is_admin, Caller, Rule, RuleStatus};

verus! {

/// Lowest and highest local port a rule may listen on.
pub const MIN_PORT: i32 = 1024;
pub const MAX_PORT: i32 = 65535;

/// Why the rule store refused an operation.
#[derive(Debug, Clone, Copy, PartialEq, Eq, Structural)]
pub enum StoreError {
    /// Another rule already listens on the port.
    DuplicatePort,
    /// No rule has the id.
    NotFound,
    /// Every positive `i32` id has been handed out.
    IdsExhausted,
}

/// Index `i` of `s` holds the rule with id `id`.
pub open spec fn holds_id(s: Seq<Rule>, id: i32, i: int) -> bool {
    0 <= i < s.len() && s[i].id == id
}

/// Some rule has id `id`.
pub open spec fn has_id(s: Seq<Rule>, id: i32) -> bool {
    exists|i: int| holds_id(s, id, i)
}

/// Where the rule with id `id` stands (meaningful when `has_id`).
pub open spec fn index_of(s: Seq<Rule>, id: i32) -> int {
    choose|i: int| holds_id(s, id, i)
}

/// The rule with id `id`, if any.
pub open spec fn lookup(s: Seq<Rule>, id: i32) -> Option<Rule> {
    if has_id(s, id) {
        Some(s[index_of(s, id)])
    } else {
        None
    }
}

/// Some rule listens on `port`.
pub open spec fn port_taken(s: Seq<Rule>, port: i32) -> bool {
    exists|i: int| 0 <= i < s.len() && s[i].local_port == port
}

/// The remark a rule stores: the given text, or the empty text when none is given.
pub open spec fn remark_text(remark: Option<String>) -> Seq<char> {
    match remark {
        Some(t) => t@,
        None => Seq::empty(),
    }
}

/// `r` with its runtime status and process handle replaced.
pub open spec fn with_status(r: Rule, status: RuleStatus, pid: i32) -> Rule {
    Rule { status: status, pid: pid, ..r }
}

/// Status and handle agree: a stopped rule has handle 0, a running one a positive handle.
pub open spec fn status_consistent(status: RuleStatus, pid: i32) -> bool {
    &&& status == RuleStatus::Stopped ==> pid == 0
    &&& status == RuleStatus::Running ==> pid > 0
}

/// A rule as the store keeps it: positive id, port in range, status and handle agreeing.
pub open spec fn rule_valid(r: Rule) -> bool {
    &&& r.id > 0
    &&& MIN_PORT <= r.local_port <= MAX_PORT
    &&& status_consistent(r.status, r.pid)
}

/// Rules are kept in creation order, so ids increase along the sequence.
pub open spec fn ids_increasing(s: Seq<Rule>) -> bool {
    forall|i: int, j: int| 0 <= i < j < s.len() ==> s[i].id < s[j].id
}

/// Ids increase along the sequence and no two rules share a local port.
pub open spec fn table_valid(s: Seq<Rule>) -> bool {
    &&& ids_increasing(s)
    &&& forall|i: int, j: int|
        0 <= i < s.len() && 0 <= j < s.len() && i != j ==> s[i].local_port != s[j].local_port
    &&& forall|i: int| 0 <= i < s.len() ==> rule_valid(#[trigger] s[i])
}

/// The rules changed by setting the status and handle of rule `id`.
pub open spec fn set_status(s: Seq<Rule>, id: i32, status: RuleStatus, pid: i32) -> Seq<Rule> {
    if has_id(s, id) {
        s.update(index_of(s, id), with_status(s[index_of(s, id)], status, pid))
    } else {
        s
    }
}

/// The rules without rule `id`.
pub open spec fn remove_id(s: Seq<Rule>, id: i32) -> Seq<Rule> {
    if has_id(s, id) {
        s.remove(index_of(s, id))
    } else {
        s
    }
}

/// Whether `c` may see and act on a rule owned by `owner`.
pub open spec fn may_operate(c: Caller, owner: Seq<char>) -> bool {
    is_admin(c.role) || c.username@ == owner
}

/// The rules that `c` sees, most recent first.
pub open spec fn listing(s: Seq<Rule>, c: Caller) -> Seq<Rule>
    decreases s.len(),
{
    if s.len() == 0 {
        Seq::empty()
    } else {
        let rest = listing(s.drop_first(), c);
        if may_operate(c, s[0].username@) {
            rest.push(s[0])
        } else {
            rest
        }
    }
}

/// With distinct ids, the rule found for `id` is the one at any index holding it.
pub proof fn lemma_lookup_at(s: Seq<Rule>, id: i32, i: int)
    requires
        ids_increasing(s),
        holds_id(s, id, i),
    ensures
        has_id(s, id),
        index_of(s, id) == i,
        lookup(s, id) == Some(s[i]),
{
    let j = index_of(s, id);
    assert(holds_id(s, id, j));
    if j < i {
        assert(s[j].id < s[i].id);
    } else if i < j {
        assert(s[i].id < s[j].id);
    }
}

/// The in-memory rule store: every rule with its configuration and runtime state.
pub struct RuleTable {
    rules: Vec<Rule>,
    next_id: i32,
}

impl View for RuleTable {
    type V = Seq<Rule>;

    closed spec fn view(&self) -> Seq<Rule> {
        self.rules@
    }
}

impl RuleTable {
    /// The id the next created rule receives.
    pub closed spec fn next_id(&self) -> i32 {
        self.next_id
    }

    /// The rules are valid and every id lies below the next one to hand out.
    pub closed spec fn wf(&self) -> bool {
        &&& table_valid(self.rules@)
        &&& self.next_id >= 1
        &&& forall|i: int| 0 <= i < self.rules@.len() ==> self.rules@[i].id < self.next_id
    }

    /// An empty store.
    pub fn new() -> (r: RuleTable)
        ensures
            r.wf(),
            r@ == Seq::<Rule>::empty(),
            r.next_id() == 1,
    {
        RuleTable { rules: Vec::new(), next_id: 1 }
    }

    /// A store holding `rules`, as read back from durable storage in id order;
    /// `None` if they break the store's invariant or leave no id to hand out.
    pub fn restore(rules: Vec<Rule>) -> (r: Option<RuleTable>)
        ensures
            match r {
                Some(t) => t.wf() && t@ == rules@,
                None => !table_valid(rules@) || (rules@.len() > 0 && rules@.last().id == i32::MAX),
            },
    {
        let n = rules.len();
        let mut i: usize = 0;
        while i < n
            invariant
                n == rules@.len(),
                i <= n,
                forall|a: int, b: int| 0 <= a < b < i ==> rules@[a].id < rules@[b].id,
                forall|a: int, b: int|
                    0 <= a < i && 0 <= b < i && a != b ==> rules@[a].local_port
                        != rules@[b].local_port,
                forall|a: int| 0 <= a < i ==> rule_valid(#[trigger] rules@[a]),
            decreases n - i,
        {
            let r = &rules[i];
            let consistent = match r.status {
                RuleStatus::Stopped => r.pid == 0,
                RuleStatus::Running => r.pid > 0,
            };
            if r.id <= 0 || r.local_port < MIN_PORT || r.local_port > MAX_PORT || !consistent {
                assert(!rule_valid(rules@[i as int]));
                return None;
            }
            if i > 0 && rules[i - 1].id >= r.id {
                assert(!ids_increasing(rules@));
                return None;
            }
            let mut j: usize = 0;
            while j < i
                invariant
                    n == rules@.len(),
                    j <= i < n,
                    forall|b: int| 0 <= b < j ==> rules@[b].local_port != rules@[i as int].local_port,
                decreases i - j,
            {
                if rules[j].local_port == rules[i].local_port {
                    assert(rules@[j as int].local_port == rules@[i as int].local_port);
                    return None;
                }
                j = j + 1;
            }
            proof {
                assert forall|a: int, b: int| 0 <= a < b < i + 1 implies rules@[a].id
                    < rules@[b].id by {
                    if b == i && a < i - 1 {
                        assert(rules@[a].id < rules@[i - 1].id);
                    }
                }
            }
            i = i + 1;
        }
        if n > 0 && rules[n - 1].id == i32::MAX {
            return None;
        }
        let next_id = if n == 0 {
            1
        } else {
            rules[n - 1].id + 1
        };
        proof {
            assert forall|a: int| 0 <= a < rules@.len() implies rules@[a].id < next_id by {
                if a < n - 1 {
                    assert(rules@[a].id < rules@[n - 1].id);
                }
            }
        }
        Some(RuleTable { rules, next_id })
    }

    /// A well-formed store holds a valid sequence of rules.
    pub proof fn lemma_valid(&self)
        requires
            self.wf(),
        ensures
            table_valid(self@),
    {
    }

    /// Number of rules held.
    pub fn len(&self) -> (r: usize)
        ensures
            r == self@.len(),
    {
        self.rules.len()
    }

    /// The rule at position `i`.
    pub fn rule_at(&self, i: usize) -> (r: &Rule)
        requires
            i < self@.len(),
        ensures
            *r == self@[i as int],
    {
        &self.rules[i]
    }

    /// Position of rule `id`, if present.
    pub fn position(&self, id: i32) -> (r: Option<usize>)
        requires
            self.wf(),
        ensures
            match r {
                Some(i) => holds_id(self@, id, i as int) && index_of(self@, id) == i,
                None => !has_id(self@, id),
            },
    {
        let n = self.rules.len();
        let mut i: usize = 0;
        while i < n
            invariant
                self.wf(),
                n == self.rules@.len(),
                i <= n,
                forall|k: int| 0 <= k < i ==> self.rules@[k].id != id,
            decreases n - i,
        {
            if self.rules[i].id == id {
                proof {
                    lemma_lookup_at(self@, id, i as int);
                }
                return Some(i);
            }
            i = i + 1;
        }
        None
    }

    /// Whether some rule listens on `port`.
    pub fn has_port(&self, port: i32) -> (r: bool)
        ensures
            r == port_taken(self@, port),
    {
        let n = self.rules.len();
        let mut i: usize = 0;
        while i < n
            invariant
                n == self.rules@.len(),
                i <= n,
                forall|k: int| 0 <= k < i ==> self.rules@[k].local_port != port,
            decreases n - i,
        {
            if self.rules[i].local_port == port {
                return true;
            }
            i = i + 1;
        }
        false
    }

    /// Adds a stopped rule with the next id, its remark the given text or the empty
    /// text; fails if the port is in use.
    pub fn create(
        &mut self,
        owner: &str,
        local_port: i32,
        target: &str,
        remark: Option<String>,
        create_time: Option<chrono::NaiveDateTime>,
    ) -> (r: Result<Rule, StoreError>)
        requires
            old(self).wf(),
            MIN_PORT <= local_port <= MAX_PORT,
        ensures
            final(self).wf(),
            port_taken(old(self)@, local_port) ==> r == Err::<Rule, StoreError>(
                StoreError::DuplicatePort,
            ) && final(self)@ == old(self)@,
            !port_taken(old(self)@, local_port) && old(self).next_id() == i32::MAX ==> r == Err::<
                Rule,
                StoreError,
            >(StoreError::IdsExhausted) && final(self)@ == old(self)@,
            !port_taken(old(self)@, local_port) && old(self).next_id() < i32::MAX ==> {
                &&& r is Ok
                &&& r->Ok_0 == (Rule {
                    id: old(self).next_id(),
                    username: r->Ok_0.username,
                    local_port: local_port,
                    target: r->Ok_0.target,
                    remark: r->Ok_0.remark,
                    pid: 0,
                    status: RuleStatus::Stopped,
                    create_time: create_time,
                })
                &&& r->Ok_0.username@ == owner@
                &&& r->Ok_0.target@ == target@
                &&& r->Ok_0.remark is Some
                &&& r->Ok_0.remark->Some_0@ == remark_text(remark)
                &&& final(self)@ == old(self)@.push(r->Ok_0)
                &&& final(self).next_id() == old(self).next_id() + 1
            },
    {
        if self.has_port(local_port) {
            return Err(StoreError::DuplicatePort);
        }
        if self.next_id == i32::MAX {
            return Err(StoreError::IdsExhausted);
        }
        let rule = Rule {
            id: self.next_id,
            username: owner.to_owned(),
            local_port,
            target: target.to_owned(),
            remark: Some(
                match remark {
                    Some(t) => t,
                    None => String::new(),
                },
            ),
            pid: 0,
            status: RuleStatus::Stopped,
            create_time,
        };
        let out = rule.duplicate();
        self.rules.push(rule);
        self.next_id = self.next_id + 1;
        proof {
            let s = self.rules@;
            assert forall|i: int, j: int|
                0 <= i < s.len() && 0 <= j < s.len() && i != j implies s[i].local_port
                != s[j].local_port by {
                if i == s.len() - 1 {
                    assert(old(self).rules@[j].local_port != local_port);
                } else if j == s.len() - 1 {
                    assert(old(self).rules@[i].local_port != local_port);
                }
            }
        }
        Ok(out)
    }

    /// The rule with id `id`, if any.
    pub fn get_by_id(&self, id: i32) -> (r: Option<Rule>)
        requires
            self.wf(),
        ensures
            r == lookup(self@, id),
    {
        match self.position(id) {
            Some(i) => {
                proof {
                    lemma_lookup_at(self@, id, i as int);
                }
                Some(self.rules[i].duplicate())
            },
            None => None,
        }
    }

    /// The rules `caller` may see, most recent first: admins see every rule,
    /// anyone else only the rules it owns.
    pub fn list_for(&self, caller: &Caller) -> (r: Vec<Rule>)
        ensures
            r@ == listing(self@, *caller),
    {
        let mut out: Vec<Rule> = Vec::new();
        let n = self.rules.len();
        let mut i: usize = n;
        let admin = caller.role.is_admin();
        while i > 0
            invariant
                n == self.rules@.len(),
                i <= n,
                admin == is_admin(caller.role),
                out@ == listing(self.rules@.subrange(i as int, n as int), *caller),
            decreases i,
        {
            i = i - 1;
            let ghost rest = self.rules@.subrange(i + 1, n as int);
            let ghost here = self.rules@.subrange(i as int, n as int);
            assert(here.drop_first() == rest);
            assert(here[0] == self.rules@[i as int]);
            let r = &self.rules[i];
            if admin || crate::text::str_eq(r.username.as_str(), caller.username.as_str()) {
                out.push(r.duplicate());
            }
        }
        assert(self.rules@.subrange(0, n as int) == self.rules@);
        out
    }

    /// Sets the status and handle of rule `id` together.
    pub fn set_runtime_status(&mut self, id: i32, status: RuleStatus, pid: i32) -> (r: Result<
        (),
        StoreError,
    >)
        requires
            old(self).wf(),
            status_consistent(status, pid),
        ensures
            final(self).wf(),
            final(self).next_id() == old(self).next_id(),
            final(self)@ == set_status(old(self)@, id, status, pid),
            r == (if has_id(old(self)@, id) {
                Ok::<(), StoreError>(())
            } else {
                Err(StoreError::NotFound)
            }),
    {
        match self.position(id) {
            Some(i) => {
                self.rules[i].status = status;
                self.rules[i].pid = pid;
                proof {
                    assert(self.rules@ =~= set_status(old(self)@, id, status, pid));
                }
                Ok(())
            },
            None => Err(StoreError::NotFound),
        }
    }

    /// Removes rule `id`.
    pub fn delete(&mut self, id: i32) -> (r: Result<(), StoreError>)
        requires
            old(self).wf(),
        ensures
            final(self).wf(),
            final(self).next_id() == old(self).next_id(),
            final(self)@ == remove_id(old(self)@, id),
            r == (if has_id(old(self)@, id) {
                Ok::<(), StoreError>(())
            } else {
                Err(StoreError::NotFound)
            }),
    {
        match self.position(id) {
            Some(i) => {
                let _ = self.rules.remove(i);
                proof {
                    let s = old(self)@;
                    assert(self.rules@ =~= s.remove(i as int));
                    let t = self.rules@;
                    assert forall|a: int, b: int| 0 <= a < b < t.len() implies t[a].id < t[b].id by {
                        let a2 = if a < i { a } else { a + 1 };
                        let b2 = if b < i { b } else { b + 1 };
                        assert(t[a] == s[a2]);
                        assert(t[b] == s[b2]);
                    }
                    assert forall|a: int, b: int|
                        0 <= a < t.len() && 0 <= b < t.len() && a != b implies t[a].local_port
                        != t[b].local_port by {
                        let a2 = if a < i { a } else { a + 1 };
                        let b2 = if b < i { b } else { b + 1 };
                        assert(t[a] == s[a2]);
                        assert(t[b] == s[b2]);
                    }
                    assert forall|a: int| 0 <= a < t.len() implies rule_valid(#[trigger] t[a])
                        && t[a].id < self.next_id by {
                        let a2 = if a < i { a } else { a + 1 };
                        assert(t[a] == s[a2]);
                    }
                }
                Ok(())
            },
            None => Err(StoreError::NotFound),
        }
    }
}

} // verus!
