use vstd::prelude::*;
use crate::unit::{Action, Outcome, Phase, Unit, UnitError, WaitPolicy};

verus! {

/// The instance that a run registers or deregisters: its identifier and an optional
/// port override. Built once per run and shared by every unit of work.
pub struct TargetDescriptor {
    pub instance_id: String,
    pub port: Option<i32>,
}

/// Why a run stopped before any target group was touched.
#[derive(Clone, Copy, Debug, PartialEq, Eq, Structural)]
pub enum RunError {
    /// No target group was named.
    NoTargetGroups,
    /// The instance's own identifier could not be found out.
    IdentityUnresolved,
}

/// A run ready to go: the instance, and one unit of work per target group named.
pub struct Plan {
    pub target: TargetDescriptor,
    pub units: Vec<Unit>,
}

/// Whether `units` holds one unit, not yet started, per entry of `target_groups`, in
/// the same order, each with the run's action and wait policy.
pub open spec fn planned(
    units: Seq<Unit>,
    target_groups: Seq<String>,
    action: Action,
    wait: WaitPolicy,
) -> bool {
    &&& units.len() == target_groups.len()
    &&& forall|i: int|
        0 <= i < units.len() ==> {
            &&& (#[trigger] units[i]).target_group@ == target_groups[i]@
            &&& units[i].action == action
            &&& units[i].wait == wait
            &&& units[i].phase == Phase::Idle
        }
}

/// One unit of work per target group, duplicates included, in the order given.
pub fn plan_units(action: Action, wait: WaitPolicy, target_groups: &Vec<String>) -> (r: Vec<Unit>)
    ensures
        planned(r@, target_groups@, action, wait),
{
    let mut units: Vec<Unit> = Vec::new();
    let mut i: usize = 0;
    while i < target_groups.len()
        invariant
            i <= target_groups@.len(),
            planned(units@, target_groups@.subrange(0, i as int), action, wait),
        decreases target_groups.len() - i,
    {
        let tg = target_groups[i].clone();
        units.push(Unit::new(tg, action, wait));
        i = i + 1;
    }
    assert(target_groups@.subrange(0, i as int) =~= target_groups@);
    units
}

/// Sets up a run. Nothing is planned, so no target group is touched, unless some
/// target group is named and the instance's identifier (`None` where it could not
/// be found out) is known.
pub fn prepare_run(
    instance_id: Option<String>,
    port: Option<i32>,
    action: Action,
    wait: WaitPolicy,
    target_groups: &Vec<String>,
) -> (r: Result<Plan, RunError>)
    ensures
        target_groups@.len() == 0 ==> r == Err::<Plan, RunError>(RunError::NoTargetGroups),
        target_groups@.len() > 0 && instance_id is None ==> r == Err::<Plan, RunError>(
            RunError::IdentityUnresolved,
        ),
        r is Ok <==> (target_groups@.len() > 0 && instance_id is Some),
        r is Ok ==> {
            &&& r->Ok_0.target.instance_id@ == instance_id->0@
            &&& r->Ok_0.target.port == port
            &&& planned(r->Ok_0.units@, target_groups@, action, wait)
        },
{
    if target_groups.len() == 0 {
        return Err(RunError::NoTargetGroups);
    }
    match instance_id {
        None => Err(RunError::IdentityUnresolved),
        Some(id) => {
            let units = plan_units(action, wait, target_groups);
            Ok(Plan { target: TargetDescriptor { instance_id: id, port }, units })
        },
    }
}

/// The outcome of each unit of work of a run, by the unit's index; empty until the
/// unit reports.
pub struct Outcomes {
    slots: Vec<Option<Outcome>>,
}

impl View for Outcomes {
    type V = Seq<Option<Outcome>>;

    closed spec fn view(&self) -> Seq<Option<Outcome>> {
        self.slots@
    }
}

/// Whether every unit has reported.
pub open spec fn all_reported(s: Seq<Option<Outcome>>) -> bool {
    forall|i: int| 0 <= i < s.len() ==> (#[trigger] s[i]) is Some
}

/// The failures among the outcomes, with the index of the unit, in index order.
pub open spec fn spec_failures(s: Seq<Option<Outcome>>) -> Seq<(usize, UnitError)>
    decreases s.len(),
{
    if s.len() == 0 {
        Seq::empty()
    } else {
        let rest = spec_failures(s.drop_last());
        match s.last() {
            Some(Outcome::Failed(e)) => rest.push(((s.len() - 1) as usize, e)),
            _ => rest,
        }
    }
}

/// The slots after a unit reports: a report fills an empty slot of a unit of the
/// run, and any other report changes nothing.
pub open spec fn spec_record(s: Seq<Option<Outcome>>, index: int, outcome: Outcome) -> Seq<
    Option<Outcome>,
> {
    if 0 <= index < s.len() && s[index] is None {
        s.update(index, Some(outcome))
    } else {
        s
    }
}

impl Outcomes {
    /// Room for the outcomes of `n` units, none reported yet.
    pub fn new(n: usize) -> (r: Outcomes)
        ensures
            r@ == Seq::new(n as nat, |i: int| None::<Outcome>),
    {
        let mut slots: Vec<Option<Outcome>> = Vec::new();
        let mut i: usize = 0;
        while i < n
            invariant
                i <= n,
                slots@ == Seq::new(i as nat, |j: int| None::<Outcome>),
            decreases n - i,
        {
            slots.push(None);
            i = i + 1;
            assert(slots@ =~= Seq::new(i as nat, |j: int| None::<Outcome>));
        }
        Outcomes { slots }
    }

    /// The number of units of the run.
    pub fn len(&self) -> (r: usize)
        ensures
            r == self@.len(),
    {
        self.slots.len()
    }

    /// The outcome of unit `index`, if it has reported.
    pub fn outcome(&self, index: usize) -> (r: Option<Outcome>)
        requires
            index < self@.len(),
        ensures
            r == self@[index as int],
    {
        self.slots[index]
    }

    /// Takes the report of unit `index`. Each unit reports once: a second report, or
    /// one for a unit that the run does not have, is refused and changes nothing.
    pub fn record(&mut self, index: usize, outcome: Outcome) -> (r: bool)
        ensures
            r == (index < old(self)@.len() && old(self)@[index as int] is None),
            final(self)@ == spec_record(old(self)@, index as int, outcome),
    {
        if index < self.slots.len() {
            match self.slots[index] {
                None => {
                    self.slots.set(index, Some(outcome));
                    true
                },
                Some(_) => false,
            }
        } else {
            false
        }
    }

    /// Whether every unit has reported, so that the run is done.
    pub fn is_complete(&self) -> (r: bool)
        ensures
            r == all_reported(self@),
    {
        let mut i: usize = 0;
        while i < self.slots.len()
            invariant
                i <= self@.len(),
                forall|j: int| 0 <= j < i ==> (#[trigger] self@[j]) is Some,
            decreases self@.len() - i,
        {
            if self.slots[i].is_none() {
                return false;
            }
            i = i + 1;
        }
        true
    }

    /// The units that failed, with their errors, in index order.
    pub fn failures(&self) -> (r: Vec<(usize, UnitError)>)
        ensures
            r@ == spec_failures(self@),
    {
        let mut r: Vec<(usize, UnitError)> = Vec::new();
        let mut i: usize = 0;
        while i < self.slots.len()
            invariant
                i <= self@.len(),
                r@ == spec_failures(self@.subrange(0, i as int)),
            decreases self@.len() - i,
        {
            proof {
                let p = self@.subrange(0, i + 1);
                assert(p.drop_last() =~= self@.subrange(0, i as int));
                assert(p.last() == self@[i as int]);
            }
            match self.slots[i] {
                Some(Outcome::Failed(e)) => {
                    r.push((i, e));
                },
                _ => {},
            }
            i = i + 1;
        }
        assert(self@.subrange(0, i as int) =~= self@);
        r
    }
}

/// The slots after the reports in `reports` come in, in that order.
pub open spec fn record_all(s: Seq<Option<Outcome>>, reports: Seq<(int, Outcome)>) -> Seq<
    Option<Outcome>,
>
    decreases reports.len(),
{
    if reports.len() == 0 {
        s
    } else {
        let before = record_all(s, reports.drop_last());
        spec_record(before, reports.last().0, reports.last().1)
    }
}

/// Whether some report in `reports` comes from unit `i`.
pub open spec fn has_report(reports: Seq<(int, Outcome)>, i: int) -> bool {
    exists|k: int| 0 <= k < reports.len() && (#[trigger] reports[k]).0 == i
}

pub open spec fn unreported(n: nat) -> Seq<Option<Outcome>> {
    Seq::new(n, |i: int| None::<Outcome>)
}

proof fn lemma_record_all_distinct(n: nat, reports: Seq<(int, Outcome)>)
    requires
        forall|k: int| 0 <= k < reports.len() ==> 0 <= (#[trigger] reports[k]).0 < n,
        forall|k1: int, k2: int|
            0 <= k1 < reports.len() && 0 <= k2 < reports.len() && k1 != k2 ==> (#[trigger] reports[k1]).0
                != (#[trigger] reports[k2]).0,
    ensures
        record_all(unreported(n), reports).len() == n,
        forall|k: int|
            0 <= k < reports.len() ==> record_all(unreported(n), reports)[(#[trigger] reports[k]).0]
                == Some(reports[k].1),
        forall|i: int|
            0 <= i < n && (forall|k: int| 0 <= k < reports.len() ==> (#[trigger] reports[k]).0 != i)
                ==> record_all(unreported(n), reports)[i] is None,
    decreases reports.len(),
{
    if reports.len() > 0 {
        let front = reports.drop_last();
        assert forall|k: int| 0 <= k < front.len() implies 0 <= (#[trigger] front[k]).0 < n by {
            assert(front[k] == reports[k]);
        }
        assert forall|k1: int, k2: int|
            0 <= k1 < front.len() && 0 <= k2 < front.len() && k1 != k2 implies (#[trigger] front[k1]).0
            != (#[trigger] front[k2]).0 by {
            assert(front[k1] == reports[k1]);
            assert(front[k2] == reports[k2]);
        }
        lemma_record_all_distinct(n, front);
        let before = record_all(unreported(n), front);
        let last = reports.len() - 1;
        assert(reports.last() == reports[last]);
        assert forall|k: int| 0 <= k < front.len() implies (#[trigger] front[k]).0 != reports[last].0 by {
            assert(front[k] == reports[k]);
        }
        assert(before[reports[last].0] is None);
        let after = record_all(unreported(n), reports);
        assert(after == before.update(reports[last].0, Some(reports[last].1)));
        assert forall|k: int| 0 <= k < reports.len() implies after[(#[trigger] reports[k]).0] == Some(
            reports[k].1,
        ) by {
            if k < last {
                assert(front[k] == reports[k]);
            }
        }
        assert forall|i: int|
            0 <= i < n && (forall|k: int| 0 <= k < reports.len() ==> (#[trigger] reports[k]).0 != i)
            implies after[i] is None by {
            assert(reports[last].0 != i);
            assert forall|k: int| 0 <= k < front.len() implies (#[trigger] front[k]).0 != i by {
                assert(front[k] == reports[k]);
            }
        }
    }
}

/// Each unit of a run reports exactly once, in whatever order the units finish, so
/// every target group ends with exactly its own outcome: a failure in one unit
/// leaves the others' outcomes as they reported them, and the run is done.
pub proof fn lemma_every_unit_reports(n: nat, reports: Seq<(int, Outcome)>)
    requires
        forall|k: int| 0 <= k < reports.len() ==> 0 <= (#[trigger] reports[k]).0 < n,
        forall|k1: int, k2: int|
            0 <= k1 < reports.len() && 0 <= k2 < reports.len() && k1 != k2 ==> (#[trigger] reports[k1]).0
                != (#[trigger] reports[k2]).0,
        forall|i: int| 0 <= i < n ==> #[trigger] has_report(reports, i),
    ensures
        record_all(unreported(n), reports).len() == n,
        all_reported(record_all(unreported(n), reports)),
        forall|k: int|
            0 <= k < reports.len() ==> record_all(unreported(n), reports)[(#[trigger] reports[k]).0]
                == Some(reports[k].1),
{
    lemma_record_all_distinct(n, reports);
    let s = record_all(unreported(n), reports);
    assert forall|i: int| 0 <= i < s.len() implies (#[trigger] s[i]) is Some by {
        assert(has_report(reports, i));
        let k = choose|k: int| 0 <= k < reports.len() && (#[trigger] reports[k]).0 == i;
        assert(s[reports[k].0] == Some(reports[k].1));
    }
}

} // verus!
