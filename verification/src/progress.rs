//! Working through a list of actions, of which any may fail.

use crate::action::{action_models, Action, ActionModel};
use vstd::prelude::*;

verus! {

/// Whether a failure of the action ends the list. A failure to send out an alert does not.
pub open spec fn is_essential(action: ActionModel) -> bool {
    !(action is Notify)
}

/// The first essential action that fails, given for each action whether it would succeed; the
/// length of the list where there is none.
pub open spec fn first_failure(actions: Seq<ActionModel>, succeeds: Seq<bool>) -> int
    decreases actions.len(),
{
    if actions.len() == 0 || (is_essential(actions[0]) && !succeeds[0]) {
        0
    } else {
        1 + first_failure(actions.drop_first(), succeeds.drop_first())
    }
}

/// What is done of a list: all actions before the first essential one that fails, an attempt to
/// send out an alert counting as done. The one that fails is tried, and none behind it is.
pub open spec fn done(actions: Seq<ActionModel>, succeeds: Seq<bool>) -> Seq<ActionModel> {
    actions.take(first_failure(actions, succeeds))
}

/// What is done of a list where the action at `k` fails, being essential, and all before succeed.
pub open spec fn done_when_fails(actions: Seq<ActionModel>, k: int) -> Seq<ActionModel> {
    actions.take(k)
}

/// A list of actions on the way.
#[derive(Debug)]
pub struct ActionRun {
    actions: Vec<Action>,
    position: usize,
    failed: bool,
}

/// Where a run stands: how many actions are behind it, and whether one of them has ended it.
pub open spec fn advance(
    actions: Seq<ActionModel>,
    position: int,
    succeeded: bool,
) -> (int, bool) {
    if succeeded || !is_essential(actions[position]) {
        (position + 1, false)
    } else {
        (position, true)
    }
}

impl ActionRun {
    /// The list.
    pub closed spec fn actions(&self) -> Seq<ActionModel> {
        action_models(self.actions@)
    }

    /// The number of actions that are done.
    pub closed spec fn position(&self) -> int {
        self.position as int
    }

    /// Whether an essential action has failed.
    pub closed spec fn failed(&self) -> bool {
        self.failed
    }

    pub open spec fn wf(&self) -> bool {
        0 <= self.position() <= self.actions().len()
    }

    /// Whether nothing is left to do.
    pub open spec fn ended(&self) -> bool {
        self.failed() || self.position() == self.actions().len()
    }

    pub fn new(actions: Vec<Action>) -> (r: ActionRun)
        ensures
            r.wf(),
            r.actions() == action_models(actions@),
            r.position() == 0,
            !r.failed(),
    {
        ActionRun { actions, position: 0, failed: false }
    }

    /// The action to do next.
    pub fn current(&self) -> (r: Option<&Action>)
        requires
            self.wf(),
        ensures
            match r {
                Some(action) => !self.ended() && action@ == self.actions()[self.position()],
                None => self.ended(),
            },
    {
        if self.failed || self.position >= self.actions.len() {
            None
        } else {
            Some(&self.actions[self.position])
        }
    }

    /// Whether an essential action has failed.
    pub fn has_failed(&self) -> (r: bool)
        ensures
            r == self.failed(),
    {
        self.failed
    }

    /// Goes on, given whether the action to do next has succeeded.
    pub fn report(&mut self, succeeded: bool)
        requires
            old(self).wf(),
            !old(self).ended(),
        ensures
            final(self).wf(),
            final(self).actions() == old(self).actions(),
            (final(self).position(), final(self).failed()) == advance(
                old(self).actions(),
                old(self).position(),
                succeeded,
            ),
    {
        assert(self.position < self.actions.len());
        assert(self.actions()[self.position()] == self.actions@[self.position as int]@);
        let goes_on = match self.actions[self.position] {
            Action::Notify { .. } => true,
            _ => succeeded,
        };
        if goes_on {
            self.position += 1;
        } else {
            self.failed = true;
        }
    }
}

/// Where a run stands after `n` reports, given for each action whether it succeeds.
pub open spec fn run_after(actions: Seq<ActionModel>, succeeds: Seq<bool>, n: nat) -> (int, bool)
    decreases n,
{
    if n == 0 {
        (0, false)
    } else {
        let (position, failed) = run_after(actions, succeeds, (n - 1) as nat);
        if failed || position >= actions.len() {
            (position, failed)
        } else {
            advance(actions, position, succeeds[position])
        }
    }
}

pub proof fn lemma_first_failure(actions: Seq<ActionModel>, succeeds: Seq<bool>)
    requires
        actions.len() == succeeds.len(),
    ensures
        0 <= first_failure(actions, succeeds) <= actions.len(),
        forall|k: int|
            0 <= k < first_failure(actions, succeeds) ==> !is_essential(#[trigger] actions[k])
                || succeeds[k],
        first_failure(actions, succeeds) < actions.len() ==> is_essential(
            actions[first_failure(actions, succeeds)],
        ) && !succeeds[first_failure(actions, succeeds)],
    decreases actions.len(),
{
    if actions.len() > 0 && !(is_essential(actions[0]) && !succeeds[0]) {
        let rest = actions.drop_first();
        let rest_succeeds = succeeds.drop_first();
        lemma_first_failure(rest, rest_succeeds);
        assert forall|k: int| 0 <= k < first_failure(actions, succeeds) implies !is_essential(
            #[trigger] actions[k],
        ) || succeeds[k] by {
            if k > 0 {
                assert(rest[k - 1] == actions[k]);
                assert(rest_succeeds[k - 1] == succeeds[k]);
            }
        }
    }
}

proof fn lemma_run_reaches(actions: Seq<ActionModel>, succeeds: Seq<bool>, n: nat)
    requires
        actions.len() == succeeds.len(),
    ensures
        ({
            let f = first_failure(actions, succeeds);
            run_after(actions, succeeds, n) == if n <= f {
                (n as int, false)
            } else {
                (f, f < actions.len())
            }
        }),
    decreases n,
{
    lemma_first_failure(actions, succeeds);
    if n > 0 {
        lemma_run_reaches(actions, succeeds, (n - 1) as nat);
    }
}

/// A list ends at its first failure: what a run has done at its end is all that comes before the
/// first essential action that fails, and the run has failed exactly where there is one.
pub proof fn law_list_ends_at_its_first_failure(actions: Seq<ActionModel>, succeeds: Seq<bool>)
    requires
        actions.len() == succeeds.len(),
    ensures
        ({
            let (position, failed) = run_after(actions, succeeds, actions.len() + 1);
            &&& actions.take(position) == done(actions, succeeds)
            &&& failed <==> exists|k: int|
                0 <= k < actions.len() && is_essential(#[trigger] actions[k]) && !succeeds[k]
        }),
{
    lemma_run_reaches(actions, succeeds, actions.len() + 1);
    lemma_first_failure(actions, succeeds);
}

/// Where the action at `k` is the first essential one to fail, those before it are done and no
/// others.
pub proof fn law_done_when_one_fails(actions: Seq<ActionModel>, succeeds: Seq<bool>, k: int)
    requires
        actions.len() == succeeds.len(),
        0 <= k < actions.len(),
        is_essential(actions[k]),
        !succeeds[k],
        forall|i: int| 0 <= i < k ==> succeeds[i],
    ensures
        done(actions, succeeds) == done_when_fails(actions, k),
{
    lemma_first_failure(actions, succeeds);
    let f = first_failure(actions, succeeds);
    if f < k {
        assert(succeeds[f]);
    }
}

/// A run goes on after each action that succeeds, and after one that sends out an alert in any
/// case. Any other action that fails, at the firewall, in the store or with an alert, ends it
/// there.
pub proof fn law_run_goes_on_or_ends(actions: Seq<ActionModel>, position: int, succeeded: bool)
    requires
        0 <= position < actions.len(),
    ensures
        ({
            let action = actions[position];
            let after = advance(actions, position, succeeded);
            &&& succeeded || action is Notify ==> after == (position + 1, false)
            &&& !succeeded && (action is FirewallBlock || action is FirewallUnblock
                || action is MarkBlocked || action is MarkReleased || action is CreateAlert)
                ==> after == (position, true)
        }),
{
}

/// A run begins with the first action of its list.
pub proof fn law_run_begins_at_the_front(list: Vec<Action>, run: ActionRun, next: Option<&Action>)
    requires
        call_ensures(ActionRun::new, (list,), run),
        call_ensures(ActionRun::current, (&run,), next),
    ensures
        list@.len() == 0 ==> next is None,
        list@.len() > 0 ==> (next matches Some(action) && action@ == list@[0]@),
{
    assert(action_models(list@).len() == list@.len());
}

/// A run gives the action that it has come to, and none once it has failed or all are behind it.
pub proof fn law_run_gives_its_actions(run: ActionRun, failed: bool, next: Option<&Action>)
    requires
        call_ensures(ActionRun::has_failed, (&run,), failed),
        call_ensures(ActionRun::current, (&run,), next),
    ensures
        failed == run.failed(),
        next is None <==> failed || run.position() == run.actions().len(),
        next matches Some(action) ==> action@ == run.actions()[run.position()],
{
}

} // verus!
