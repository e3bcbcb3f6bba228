use vstd::prelude::*;

use crate::file_checker::{step, File, FileCheckResults, FileV, Mode, ResultsV};

verus! {

/// How many actions are still pending in a result set.
pub open spec fn total_pending(r: ResultsV) -> nat {
    r.to_add.len() + r.to_delete.len() + r.to_rewrite.len()
}

/// The actions that draining `n` times takes out of `r`, in order, together
/// with what remains: repeated `step`s, stopping early when nothing is left.
pub open spec fn drain(r: ResultsV, n: nat) -> (Seq<(Mode, FileV)>, ResultsV)
    decreases n,
{
    if n == 0 {
        (Seq::<(Mode, FileV)>::empty(), r)
    } else {
        match step(r) {
            None => (Seq::<(Mode, FileV)>::empty(), r),
            Some(picked) => {
                let rest = drain(picked.1, (n - 1) as nat);
                (seq![picked.0] + rest.0, rest.1)
            },
        }
    }
}

/// The plan entries as mathematical values.
pub open spec fn plan_views(plan: Seq<(Mode, File)>) -> Seq<(Mode, FileV)> {
    plan.map_values(|a: (Mode, File)| (a.0, a.1@))
}

pub proof fn lemma_plan_views_push(plan: Seq<(Mode, File)>, a: (Mode, File))
    ensures
        plan_views(plan.push(a)) == plan_views(plan).push((a.0, a.1@)),
{
    assert(plan_views(plan.push(a)) =~= plan_views(plan).push((a.0, a.1@)));
}

/// Drains a bounded number of pending actions per invocation.
pub struct Syncer {
    pub src_dir: String,
    pub dest_dir: String,
    pub op_count: usize,
    pub files: Option<FileCheckResults>,
}

impl Syncer {
    pub fn new(src_dir: String, dest_dir: String, op_count: usize) -> (r: Syncer)
        ensures
            r.src_dir@ == src_dir@,
            r.dest_dir@ == dest_dir@,
            r.op_count == op_count,
            r.files is None,
    {
        Syncer { src_dir, dest_dir, op_count, files: None }
    }

    pub fn set_results(&mut self, results: FileCheckResults)
        ensures
            final(self).files matches Some(f) && f@ == results@,
            final(self).src_dir@ == old(self).src_dir@,
            final(self).dest_dir@ == old(self).dest_dir@,
            final(self).op_count == old(self).op_count,
    {
        self.files = Some(results);
    }

    /// Drain up to `op_count` pending actions, updates first, then adds, then
    /// deletes, and return them in execution order; whatever was not drained
    /// stays behind for a later invocation.
    pub fn run(&mut self) -> (plan: Vec<(Mode, File)>)
        requires
            old(self).files is Some,
        ensures
            final(self).src_dir@ == old(self).src_dir@,
            final(self).dest_dir@ == old(self).dest_dir@,
            final(self).op_count == old(self).op_count,
            plan_views(plan@) == drain(old(self).files->0@, old(self).op_count as nat).0,
            final(self).files matches Some(f) && f@ == drain(
                old(self).files->0@,
                old(self).op_count as nat,
            ).1,
    {
        let ghost before = self.files->0@;
        let ghost budget = self.op_count as nat;
        let mut files = self.files.take().unwrap();
        let mut plan: Vec<(Mode, File)> = Vec::new();
        let mut i: usize = 0;
        while i < self.op_count
            invariant
                0 <= i <= self.op_count,
                budget == self.op_count as nat,
                drain(before, budget).0 == plan_views(plan@) + drain(
                    files@,
                    (budget - i) as nat,
                ).0,
                drain(before, budget).1 == drain(files@, (budget - i) as nat).1,
            decreases self.op_count - i,
        {
            let ghost cur = files@;
            let ghost left = (budget - i) as nat;
            match files.next() {
                Some(action) => {
                    let ghost old_plan = plan@;
                    let ghost act = action;
                    plan.push(action);
                    proof {
                        lemma_plan_views_push(old_plan, act);
                        let picked = step(cur)->0;
                        assert((act.0, act.1@) == picked.0);
                        assert(drain(cur, left).0 == seq![picked.0] + drain(
                            picked.1,
                            (left - 1) as nat,
                        ).0);
                        assert(plan_views(plan@) + drain(files@, (left - 1) as nat).0
                            =~= plan_views(old_plan) + drain(cur, left).0);
                    }
                },
                None => {
                    proof {
                        assert(step(cur) is None);
                        assert(drain(cur, left).0 =~= Seq::<(Mode, FileV)>::empty());
                        assert(drain(cur, (left - 1) as nat).0
                            =~= Seq::<(Mode, FileV)>::empty());
                        assert(drain(cur, (left - 1) as nat).1 == cur);
                        assert(plan_views(plan@) + drain(files@, (left - 1) as nat).0
                            =~= plan_views(plan@) + drain(cur, left).0);
                    }
                },
            }
            i += 1;
        }
        proof {
            assert(drain(files@, 0).0 =~= Seq::<(Mode, FileV)>::empty());
            assert(plan_views(plan@) + drain(files@, 0).0 =~= plan_views(plan@));
        }
        self.files = Some(files);
        plan
    }
}

} // verus!
