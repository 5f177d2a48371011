//! A run of the battery, one step at a time.
//!
//! The store is reached by other means: whoever drives the run carries out the
//! action that it names, and hands back the reply.

use vstd::prelude::*;

use super::cases::{battery, battery_steps, steps_view};
use super::script::{
    breach, burst_view, clashes, first_clash, violation, violation_view, KvAction, KvActionView,
    KvReply, KvReplyView, KvStep, KvStepView, Violation, ViolationView,
};
use super::KvContractTiming;
use crate::error::ClusterError;
use crate::kv_model::{KvAnswer, KvOp};
use crate::time::NANOS_PER_MILLI;

verus! {

/// A run in progress, or one that has ended.
#[derive(Debug)]
pub struct KvContractRun {
    script: Vec<KvStep>,
    at: usize,
    burst: Vec<Result<i64, ClusterError>>,
    violation: Option<Violation>,
}

/// The state of a run: its steps, how many of them the store has kept to, what has
/// come of the burst under way, if there is one, and how the store broke the next
/// step, if it did.
pub ghost struct KvContractRunView {
    pub script: Seq<KvStepView>,
    pub kept: nat,
    pub burst: Seq<KvAnswer>,
    pub violation: Option<ViolationView>,
}

impl View for KvContractRun {
    type V = KvContractRunView;

    closed spec fn view(&self) -> KvContractRunView {
        KvContractRunView {
            script: steps_view(self.script@),
            kept: self.at as nat,
            burst: burst_view(self.burst@),
            violation: violation_view(self.violation),
        }
    }
}

impl KvContractRunView {
    /// A run of `script` that has yet to take its first step.
    pub open spec fn start(script: Seq<KvStepView>) -> Self {
        KvContractRunView { script, kept: 0, burst: seq![], violation: None }
    }

    /// Whether there is a step to take.
    pub open spec fn in_progress(self) -> bool {
        self.violation is None && self.kept < self.script.len()
    }

    /// Whether the store has kept to every step.
    pub open spec fn passed(self) -> bool {
        self.violation is None && self.kept >= self.script.len()
    }

    /// The state once a step is kept.
    pub open spec fn advanced(self) -> Self {
        KvContractRunView { kept: self.kept + 1, burst: seq![], ..self }
    }

    /// The state once a step is broken.
    pub open spec fn broken(self, violation: ViolationView) -> Self {
        KvContractRunView { burst: seq![], violation: Some(violation), ..self }
    }

    /// The state once `answers` have come of a burst of `callers`.
    pub open spec fn gathered(self, callers: nat, answers: Seq<KvAnswer>) -> Self {
        if answers.len() > callers {
            self.broken(ViolationView::Misplaced)
        } else {
            match violation(self.script[self.kept as int].expected, KvReplyView::Burst(answers)) {
                Some(violation) => self.broken(violation),
                None => if answers.len() == callers {
                    self.advanced()
                } else {
                    KvContractRunView { burst: answers, ..self }
                },
            }
        }
    }

    /// The state after a reply to the step at hand. The answers of a burst are judged
    /// as they come. A run that has ended stays as it is.
    pub open spec fn observe(self, reply: KvReplyView) -> Self {
        if self.in_progress() {
            let step = self.script[self.kept as int];
            match (step.action, reply) {
                (
                    KvActionView::Burst(_, callers),
                    KvReplyView::Burst(answers),
                ) => self.gathered(callers, self.burst + answers),
                _ => match breach(step, reply) {
                    None => self.advanced(),
                    Some(violation) => self.broken(violation),
                },
            }
        } else {
            self
        }
    }

    /// The state after a number of replies.
    pub open spec fn observe_all(self, replies: Seq<KvReplyView>) -> Self
        decreases replies.len(),
    {
        if replies.len() == 0 {
            self
        } else {
            self.observe_all(replies.drop_last()).observe(replies.last())
        }
    }
}

/// Starts a run of the battery with the default timing, which suits backends that
/// keep TTLs to the millisecond.
#[must_use]
pub fn run_kv_contract() -> (r: KvContractRun)
    ensures
        r@ == KvContractRunView::start(
            battery((50 * NANOS_PER_MILLI) as nat, (120 * NANOS_PER_MILLI) as nat),
        ),
{
    run_kv_contract_with(KvContractTiming::default())
}

/// Starts a run of the battery with the given timing.
#[must_use]
pub fn run_kv_contract_with(timing: KvContractTiming) -> (r: KvContractRun)
    requires
        timing.usable(),
    ensures
        r@ == KvContractRunView::start(battery(timing.short_ttl@, timing.expiry_slack@)),
{
    let burst: Vec<Result<i64, ClusterError>> = Vec::new();
    proof {
        assert(burst_view(burst@) =~= seq![]);
    }
    KvContractRun { script: battery_steps(timing), at: 0, burst, violation: None }
}

impl KvContractRun {
    #[verifier::type_invariant]
    spec fn well_formed(self) -> bool {
        self.at <= self.script.len()
    }

    /// What to do next; `None` once the run has ended. A burst is named again for as
    /// long as answers of it are outstanding.
    pub fn next_action(&self) -> (r: Option<&KvAction>)
        ensures
            match r {
                Some(action) => self@.in_progress() && action@
                    == self@.script[self@.kept as int].action,
                None => !self@.in_progress(),
            },
    {
        proof {
            use_type_invariant(self);
        }
        if self.violation.is_none() && self.at < self.script.len() {
            Some(&self.script[self.at].action)
        } else {
            None
        }
    }

    /// Takes the reply to the action that was named last. The answers of a burst may
    /// come in any number of parts.
    pub fn observe(&mut self, reply: KvReply)
        ensures
            final(self)@ == old(self)@.observe(reply@),
    {
        proof {
            use_type_invariant(&*self);
        }
        if self.violation.is_none() && self.at < self.script.len() {
            let callers = match &self.script[self.at].action {
                KvAction::IncrBurst { callers, .. } => Some(*callers),
                _ => None,
            };
            match (callers, reply) {
                (Some(callers), KvReply::Burst(answers)) => {
                    self.gather(callers, answers);
                },
                (_, reply) => {
                    let violation = self.script[self.at].check(reply);
                    self.settle(violation);
                },
            }
        }
    }

    /// Ends the step at hand.
    fn settle(&mut self, violation: Option<Violation>)
        requires
            old(self)@.in_progress(),
        ensures
            final(self)@ == match violation_view(violation) {
                None => old(self)@.advanced(),
                Some(violation) => old(self)@.broken(violation),
            },
    {
        proof {
            use_type_invariant(&*self);
        }
        self.burst = Vec::new();
        proof {
            assert(burst_view(self.burst@) =~= seq![]);
        }
        if violation.is_none() {
            self.at = self.at + 1;
        } else {
            self.violation = violation;
        }
    }

    /// Takes answers of a burst.
    fn gather(&mut self, callers: usize, answers: Vec<Result<i64, ClusterError>>)
        requires
            old(self)@.in_progress(),
        ensures
            final(self)@ == old(self)@.gathered(
                callers as nat,
                old(self)@.burst + burst_view(answers@),
            ),
    {
        proof {
            use_type_invariant(&*self);
        }
        let mut all: Vec<Result<i64, ClusterError>> = Vec::new();
        std::mem::swap(&mut all, &mut self.burst);
        let mut answers = answers;
        proof {
            assert(burst_view(all@ + answers@) =~= burst_view(all@) + burst_view(answers@));
        }
        all.append(&mut answers);
        if all.len() > callers {
            self.settle(Some(Violation::Misplaced));
            return ;
        }
        let violation = self.script[self.at].expected.check_burst(&mut all);
        if violation.is_some() || all.len() == callers {
            self.settle(violation);
        } else {
            self.burst = all;
        }
    }

    /// How the store broke the contract, once it has.
    pub fn violation(&self) -> (r: Option<&Violation>)
        ensures
            match r {
                Some(violation) => self@.violation == Some(violation@),
                None => self@.violation is None,
            },
    {
        match &self.violation {
            Some(violation) => Some(violation),
            None => None,
        }
    }

    /// Whether the store has kept to the whole battery.
    pub fn passed(&self) -> (r: bool)
        ensures
            r == self@.passed(),
    {
        self.violation.is_none() && self.at >= self.script.len()
    }
}

/// Whether a reply is the whole reply to a step, and not a part of the answers of a
/// burst.
pub open spec fn is_whole(step: KvStepView, reply: KvReplyView) -> bool {
    match (step.action, reply) {
        (KvActionView::Burst(_, callers), KvReplyView::Burst(answers)) => answers.len() >= callers,
        _ => true,
    }
}

/// It makes no difference in how many parts the answers of a burst come.
pub proof fn law_burst_in_parts_is_the_burst(
    run: KvContractRunView,
    callers: nat,
    op: KvOp,
    first: Seq<KvAnswer>,
    rest: Seq<KvAnswer>,
)
    requires
        run.in_progress(),
        run.script[run.kept as int].action == KvActionView::Burst(op, callers),
        run.burst.len() + first.len() < callers,
        run.burst.len() + first.len() + rest.len() <= callers,
    ensures
        run.observe(KvReplyView::Burst(first)).observe(KvReplyView::Burst(rest)) == run.observe(
            KvReplyView::Burst(first + rest),
        ),
{
    let so_far = run.burst + first;
    assert(so_far + rest =~= run.burst + (first + rest));
    lemma_clash_stays(so_far, rest, 0);
}

/// The answers of a burst are judged as they come: the run ends with the first that
/// failed or that repeats an earlier one, however many are outstanding.
pub proof fn law_burst_ends_with_first_clash(
    run: KvContractRunView,
    callers: nat,
    op: KvOp,
    answers: Seq<KvAnswer>,
)
    requires
        run.in_progress(),
        run.script[run.kept as int].action == KvActionView::Burst(op, callers),
        run.script[run.kept as int].expected is AllDistinct,
        run.burst.len() + answers.len() <= callers,
        first_clash(run.burst + answers, 0) is Some,
    ensures
        run.observe(KvReplyView::Burst(answers)).violation is Some,
{
}

/// More answers leave the first clash where it is.
proof fn lemma_clash_stays(answers: Seq<KvAnswer>, more: Seq<KvAnswer>, from: int)
    requires
        0 <= from,
    ensures
        first_clash(answers, from) matches Some(i) ==> from <= i < answers.len() && first_clash(
            answers + more,
            from,
        ) == Some(i) && (answers + more)[i] == answers[i],
    decreases answers.len() - from,
{
    if from < answers.len() {
        let all = answers + more;
        assert(all[from] == answers[from]);
        assert(clashes(all, from) == clashes(answers, from)) by {
            if exists|j: int| 0 <= j < from && #[trigger] all[j] == all[from] {
                let j = choose|j: int| 0 <= j < from && #[trigger] all[j] == all[from];
                assert(answers[j] == answers[from]);
            }
            if exists|j: int| 0 <= j < from && #[trigger] answers[j] == answers[from] {
                let j = choose|j: int| 0 <= j < from && #[trigger] answers[j] == answers[from];
                assert(all[j] == all[from]);
            }
        }
        lemma_clash_stays(answers, more, from + 1);
    }
}

/// A run whose bursts are replied to in one part passes exactly when every step has
/// got a reply and none of those replies breaks its step. Replies beyond the last
/// step count for nothing.
pub proof fn law_run_passes_when_every_step_is_kept(
    script: Seq<KvStepView>,
    replies: Seq<KvReplyView>,
)
    requires
        forall|i: int|
            #![trigger script[i]]
            0 <= i < script.len() && i < replies.len() ==> is_whole(script[i], replies[i]),
    ensures
        KvContractRunView::start(script).observe_all(replies).passed() == {
            &&& replies.len() >= script.len()
            &&& forall|i: int|
                #![trigger script[i]]
                0 <= i < script.len() ==> breach(script[i], replies[i]) is None
        },
{
    lemma_run_keeps_count(script, replies);
}

/// A run that ends in a violation names the first step that was broken: every
/// step before it was kept, and no later reply changes the finding.
pub proof fn law_run_names_first_breach(script: Seq<KvStepView>, replies: Seq<KvReplyView>, i: int)
    requires
        0 <= i < script.len(),
        i < replies.len(),
        forall|j: int|
            #![trigger script[j]]
            0 <= j < script.len() && j < replies.len() ==> is_whole(script[j], replies[j]),
        forall|j: int| #![trigger script[j]] 0 <= j < i ==> breach(script[j], replies[j]) is None,
        breach(script[i], replies[i]) is Some,
    ensures
        KvContractRunView::start(script).observe_all(replies).kept == i,
        KvContractRunView::start(script).observe_all(replies).violation == breach(
            script[i],
            replies[i],
        ),
{
    lemma_run_keeps_count(script, replies);
}

/// After a number of replies, a run has either kept to as many steps, or stopped
/// at the first that was broken.
proof fn lemma_run_keeps_count(script: Seq<KvStepView>, replies: Seq<KvReplyView>)
    requires
        forall|i: int|
            #![trigger script[i]]
            0 <= i < script.len() && i < replies.len() ==> is_whole(script[i], replies[i]),
    ensures
        ({
            let run = KvContractRunView::start(script).observe_all(replies);
            &&& run.script == script
            &&& run.burst == Seq::<KvAnswer>::empty()
            &&& run.kept <= script.len()
            &&& run.kept <= replies.len()
            &&& forall|i: int|
                #![trigger script[i]]
                0 <= i < run.kept ==> breach(script[i], replies[i]) is None
            &&& match run.violation {
                None => run.kept == script.len() || run.kept == replies.len(),
                Some(violation) => run.kept < script.len() && run.kept < replies.len() && breach(
                    script[run.kept as int],
                    replies[run.kept as int],
                ) == Some(violation),
            }
        }),
    decreases replies.len(),
{
    if replies.len() > 0 {
        let earlier = replies.drop_last();
        assert forall|i: int|
            #![trigger script[i]]
            0 <= i < script.len() && i < earlier.len() implies is_whole(script[i], earlier[i]) by {
            assert(earlier[i] == replies[i]);
        }
        lemma_run_keeps_count(script, earlier);
        let run = KvContractRunView::start(script).observe_all(replies);
        let before = KvContractRunView::start(script).observe_all(earlier);
        assert(run == before.observe(replies.last()));
        if before.in_progress() {
            assert(before.kept == earlier.len());
            assert(is_whole(script[before.kept as int], replies[before.kept as int]));
            if let KvReplyView::Burst(answers) = replies.last() {
                assert(before.burst + answers =~= answers);
            }
        }
        assert forall|i: int|
            #![trigger script[i]]
            0 <= i < run.kept implies breach(script[i], replies[i]) is None by {
            if i < earlier.len() {
                assert(earlier[i] == replies[i]);
            }
        }
        if before.kept < earlier.len() {
            assert(earlier[before.kept as int] == replies[before.kept as int]);
        }
    }
}

/// A run is under way, has passed or has found a violation, one of the three; and once
/// it is not under way, nothing changes it.
pub proof fn law_run_is_in_one_state(run: KvContractRunView, reply: KvReplyView)
    ensures
        run.passed() ==> !run.in_progress() && run.violation is None,
        run.violation is Some ==> !run.in_progress() && !run.passed(),
        run.in_progress() || run.passed() || run.violation is Some,
        !run.in_progress() ==> run.observe(reply) == run,
{
}

/// A reply is to the step at hand: a run takes one step at a time, never goes back, and
/// never leaves a step that was broken.
pub proof fn law_run_goes_step_by_step(run: KvContractRunView, reply: KvReplyView)
    ensures
        run.observe(reply).script == run.script,
        run.kept <= run.observe(reply).kept <= run.kept + 1,
        run.observe(reply).kept > run.kept ==> run.observe(reply).violation is None,
        run.violation is Some ==> run.observe(reply).violation == run.violation,
{
}

} // verus!
