//! Flat-mode propagation planning.
//!
//! In flat mode the membership listing attaches the caller's access level
//! to each project, and only projects at or above the Maintainer threshold
//! receive the variable write. The planner turns the listed projects into
//! the exact sequence of project identifiers to write to, in listing
//! order; everything below the threshold is silently skipped.

use crate::model::{Project, eligible};
use vstd::prelude::*;

verus! {

/// The identifiers of the eligible projects of `s`, in listing order.
pub open spec fn eligible_ids(s: Seq<Project>) -> Seq<u64>
    decreases s.len(),
{
    if s.len() == 0 {
        Seq::empty()
    } else {
        eligible_ids(s.drop_last()) + (if eligible(s.last()) {
            seq![s.last().id]
        } else {
            Seq::<u64>::empty()
        })
    }
}

/// How often `x` occurs in `s`.
pub open spec fn count_id(s: Seq<u64>, x: u64) -> nat
    decreases s.len(),
{
    if s.len() == 0 {
        0
    } else {
        count_id(s.drop_last(), x) + (if s.last() == x {
            1nat
        } else {
            0nat
        })
    }
}

/// How many projects of `s` carry identifier `x` and are eligible.
pub open spec fn count_eligible_with_id(s: Seq<Project>, x: u64) -> nat
    decreases s.len(),
{
    if s.len() == 0 {
        0
    } else {
        count_eligible_with_id(s.drop_last(), x) + (if s.last().id == x && eligible(s.last()) {
            1nat
        } else {
            0nat
        })
    }
}

/// Plans one flat-mode run: returns the identifiers of exactly the
/// eligible projects, in listing order. One write is issued per planned
/// identifier, so the plan is the complete record of the run's writes.
pub fn plan_flat_run(projects: &Vec<Project>) -> (plan: Vec<u64>)
    ensures
        plan@ == eligible_ids(projects@),
{
    let ghost all = projects@;
    let mut plan: Vec<u64> = Vec::new();
    let mut i: usize = 0;
    while i < projects.len()
        invariant
            i <= all.len(),
            projects@ == all,
            plan@ == eligible_ids(all.take(i as int)),
        decreases all.len() - i,
    {
        proof {
            assert(all.take(i as int + 1).drop_last() =~= all.take(i as int));
            assert(all.take(i as int + 1).last() == all[i as int]);
        }
        let p = &projects[i];
        if p.is_eligible() {
            plan.push(p.id);
        }
        proof {
            assert(plan@ =~= eligible_ids(all.take(i as int + 1)));
        }
        i += 1;
    }
    proof {
        assert(all.take(all.len() as int) =~= all);
    }
    plan
}

/// An identifier occurs zero times in a sequence exactly when the
/// sequence does not contain it.
pub proof fn lemma_count_id_zero_iff_absent(s: Seq<u64>, x: u64)
    ensures
        count_id(s, x) == 0 <==> !s.contains(x),
    decreases s.len(),
{
    if s.len() == 0 {
    } else {
        lemma_count_id_zero_iff_absent(s.drop_last(), x);
        if s.contains(x) {
            let i = choose|i: int| 0 <= i < s.len() && s[i] == x;
            if i < s.len() - 1 {
                assert(s.drop_last()[i] == x);
                assert(s.drop_last().contains(x));
            }
        } else {
            assert(forall|i: int|
                0 <= i < s.len() - 1 ==> s.drop_last()[i] == s[i] && s[i] != x);
            if s.drop_last().contains(x) {
                let i = choose|i: int| 0 <= i < s.len() - 1 && s.drop_last()[i] == x;
                assert(s[i] == x);
            }
        }
    }
}

/// Planned writes count identifiers exactly as the listing counts
/// eligible projects: the plan holds one entry for `x` per eligible
/// project whose identifier is `x`.
pub proof fn lemma_plan_counts_eligible(s: Seq<Project>, x: u64)
    ensures
        count_id(eligible_ids(s), x) == count_eligible_with_id(s, x),
    decreases s.len(),
{
    if s.len() == 0 {
    } else {
        lemma_plan_counts_eligible(s.drop_last(), x);
        let rest = eligible_ids(s.drop_last());
        if eligible(s.last()) {
            assert(eligible_ids(s) =~= rest.push(s.last().id));
            assert(eligible_ids(s).drop_last() =~= rest);
        } else {
            assert(eligible_ids(s) =~= rest);
        }
    }
}

/// Below the threshold, no write: when every listed project that carries
/// identifier `x` is ineligible — in particular when `x` belongs to a
/// single project whose access level is below Maintainer — the plan never
/// mentions `x`.
pub proof fn lemma_ineligible_id_never_planned(s: Seq<Project>, x: u64)
    requires
        forall|i: int| 0 <= i < s.len() && s[i].id == x ==> !eligible(s[i]),
    ensures
        count_id(eligible_ids(s), x) == 0,
        !eligible_ids(s).contains(x),
    decreases s.len(),
{
    lemma_plan_counts_eligible(s, x);
    lemma_count_id_zero_iff_absent(eligible_ids(s), x);
    if s.len() > 0 {
        assert(forall|i: int|
            0 <= i < s.len() - 1 && s.drop_last()[i].id == x ==> !eligible(s[i]));
        lemma_ineligible_id_never_planned(s.drop_last(), x);
        assert(s.last() == s[s.len() - 1]);
    }
}

/// At or above the threshold, exactly one write: under unique project
/// identifiers, each eligible project's identifier is planned exactly
/// once per run.
pub proof fn lemma_eligible_planned_exactly_once(s: Seq<Project>, i: int)
    requires
        0 <= i < s.len(),
        eligible(s[i]),
        s.map_values(|p: Project| p.id).no_duplicates(),
    ensures
        count_id(eligible_ids(s), s[i].id) == 1,
    decreases s.len(),
{
    lemma_plan_counts_eligible(s, s[i].id);
    let ids = s.map_values(|p: Project| p.id);
    if i == s.len() - 1 {
        assert forall|j: int|
            0 <= j < s.len() - 1 && s.drop_last()[j].id == s[i].id implies !eligible(
            s.drop_last()[j],
        ) by {
            assert(s.drop_last()[j] == s[j]);
            assert(ids[j] == s[j].id);
            assert(ids[i] == s[i].id);
            assert(ids[j] != ids[i]);
        }
        lemma_ineligible_id_never_planned(s.drop_last(), s[i].id);
        lemma_plan_counts_eligible(s.drop_last(), s[i].id);
    } else {
        assert(s.drop_last().map_values(|p: Project| p.id) =~= ids.drop_last());
        assert(ids.drop_last().no_duplicates());
        assert(s.drop_last()[i] == s[i]);
        lemma_eligible_planned_exactly_once(s.drop_last(), i);
        lemma_plan_counts_eligible(s.drop_last(), s[i].id);
        assert(ids[s.len() - 1] != ids[i]);
        assert(s.last().id != s[i].id);
    }
}

} // verus!
