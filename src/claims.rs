use vstd::prelude::*;

verus! {

/// The rule ids whose state change is in flight. A change of a rule goes ahead
/// only while it holds the rule's claim, so at most one change per rule runs at a
/// time, while changes of other rules proceed.
pub struct Claims {
    ids: Vec<i32>,
}

impl View for Claims {
    type V = Set<i32>;

    closed spec fn view(&self) -> Set<i32> {
        Set::new(|x: i32| self.ids@.contains(x))
    }
}

impl Claims {
    /// No rule claimed.
    pub fn new() -> (r: Claims)
        ensures
            r@ == Set::<i32>::empty(),
    {
        let r = Claims { ids: Vec::new() };
        assert(r@ =~= Set::<i32>::empty());
        r
    }

    /// Whether a change of rule `id` is in flight.
    pub fn is_claimed(&self, id: i32) -> (r: bool)
        ensures
            r == self@.contains(id),
    {
        let n = self.ids.len();
        let mut i: usize = 0;
        while i < n
            invariant
                n == self.ids@.len(),
                i <= n,
                forall|k: int| 0 <= k < i ==> self.ids@[k] != id,
            decreases n - i,
        {
            if self.ids[i] == id {
                assert(self.ids@.contains(id));
                return true;
            }
            i = i + 1;
        }
        false
    }

    /// Claims rule `id`; fails, changing nothing, if it is already claimed.
    pub fn try_claim(&mut self, id: i32) -> (r: bool)
        ensures
            r == !old(self)@.contains(id),
            final(self)@ == old(self)@.insert(id),
    {
        if self.is_claimed(id) {
            assert(self@ =~= old(self)@.insert(id));
            return false;
        }
        self.ids.push(id);
        proof {
            assert forall|x: i32| self.ids@.contains(x) == (old(self).ids@.contains(x) || x == id) by {
                if self.ids@.contains(x) && x != id {
                    let k = choose|k: int| 0 <= k < self.ids@.len() && self.ids@[k] == x;
                    assert(old(self).ids@[k] == x);
                }
                if old(self).ids@.contains(x) {
                    let k = choose|k: int| 0 <= k < old(self).ids@.len() && old(self).ids@[k] == x;
                    assert(self.ids@[k] == x);
                }
                if x == id {
                    assert(self.ids@[self.ids@.len() - 1] == x);
                }
            }
            assert(self@ =~= old(self)@.insert(id));
        }
        true
    }

    /// Gives up the claim on rule `id`.
    pub fn release(&mut self, id: i32)
        ensures
            final(self)@ == old(self)@.remove(id),
    {
        let mut kept: Vec<i32> = Vec::new();
        let n = self.ids.len();
        let mut i: usize = 0;
        while i < n
            invariant
                n == self.ids@.len(),
                i <= n,
                forall|x: i32|
                    #[trigger] kept@.contains(x) == (x != id && self.ids@.subrange(
                        0,
                        i as int,
                    ).contains(x)),
            decreases n - i,
        {
            let x = self.ids[i];
            let ghost pre = self.ids@.subrange(0, i as int);
            let ghost post = self.ids@.subrange(0, i + 1);
            let ghost kept0 = kept@;
            assert(post == pre.push(x));
            assert(forall|y: i32| #[trigger] kept0.contains(y) == (y != id && pre.contains(y)));
            if x != id {
                kept.push(x);
            }
            proof {
                assert forall|y: i32|
                    #[trigger] kept@.contains(y) == (y != id && post.contains(y)) by {
                    if post.contains(y) && y != id {
                        let k = choose|k: int| 0 <= k < post.len() && post[k] == y;
                        if k < pre.len() {
                            assert(pre[k] == y);
                            assert(kept0.contains(y));
                            let j = choose|j: int| 0 <= j < kept0.len() && kept0[j] == y;
                            assert(kept@[j] == y);
                        } else {
                            assert(kept@[kept@.len() - 1] == y);
                        }
                    }
                    if kept@.contains(y) {
                        let j = choose|j: int| 0 <= j < kept@.len() && kept@[j] == y;
                        if j < kept0.len() {
                            assert(kept0[j] == y);
                            assert(kept0.contains(y));
                            assert(pre.contains(y));
                            let k = choose|k: int| 0 <= k < pre.len() && pre[k] == y;
                            assert(post[k] == y);
                        } else {
                            assert(post[i as int] == y);
                        }
                    }
                }
            }
            i = i + 1;
        }
        assert(self.ids@.subrange(0, n as int) == self.ids@);
        self.ids = kept;
        assert(self@ =~= old(self)@.remove(id));
    }
}

} // verus!
