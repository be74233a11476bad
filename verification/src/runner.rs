//! Running one action: the applicability and skip decisions, the invocation
//! loop over the repeat schedule, exit-code classification, and the output
//! visibility policy.
//!
//! The application drives this: it computes an [`ActionPlan`], and only for
//! [`ActionPlan::Run`] spawns subprocesses, feeding each invocation's outcome
//! back into the [`InvocationLoop`] until the schedule is exhausted.

use vstd::prelude::*;

use crate::actions::ActionDefinition;
use crate::actions::ActionResult;
use crate::actions::OutputCondition;
use crate::args::Args;
use crate::args::ResolvedInputs;
use crate::args::arg_models;
use crate::args::args_fresh;
use crate::args::filtered_input;
use crate::args::parse_args;
use crate::args::spec_get_filtered;
use crate::args::spec_odometer_step;
use crate::args::spec_parse_args;
use crate::strutil::concat3;
use crate::strutil::list_contains_entry;
use crate::strutil::sep_list_contains;

verus! {

// ---------------------------------------------------------------------------
// Planning one action.
// ---------------------------------------------------------------------------

/// What the runner decides to do with one action before any subprocess is
/// spawned.
pub enum ActionPlan {
    /// A filtered input was empty or unavailable: report and stop.
    NotApplicable,
    /// The skip list names this action: report and stop.
    Skipped,
    /// The action cannot run; the run as a whole continues.
    Error(String),
    /// Run the invocation loop over this argument schedule.
    Run(Args),
}

/// The mathematical value of a plan.
pub enum PlanModel {
    MNotApplicable,
    MSkipped,
    MError,
    MRun(Seq<Seq<Seq<char>>>),
}

pub open spec fn plan_model(p: ActionPlan) -> PlanModel {
    match p {
        ActionPlan::NotApplicable => PlanModel::MNotApplicable,
        ActionPlan::Skipped => PlanModel::MSkipped,
        ActionPlan::Error(_) => PlanModel::MError,
        ActionPlan::Run(a) => PlanModel::MRun(arg_models(a.spec_args())),
    }
}

/// Every input this action filters resolves to a non-empty filtered set.
pub open spec fn spec_applicable(
    action: &ActionDefinition,
    resolved: &ResolvedInputs,
    root: Seq<char>,
) -> bool {
    forall|k: int|
        0 <= k < action.input_filters.entries_seq().len() ==> ((#[trigger] spec_get_filtered(
            resolved,
            &action.input_filters,
            root,
            action.input_filters.entries_seq()[k].0@,
        )) matches Ok(v) && v.len() > 0)
}

/// The plan for one action: inapplicable inputs first, then the skip list,
/// then a missing command, then template expansion — whose empty-input case
/// is inapplicability again, and whose failure is this action's error.
pub open spec fn spec_plan(
    action: &ActionDefinition,
    resolved: &ResolvedInputs,
    skip: Seq<char>,
    root: Seq<char>,
) -> PlanModel {
    if !spec_applicable(action, resolved, root) {
        PlanModel::MNotApplicable
    } else if sep_list_contains(skip, action.source@ + "/"@ + action.id@) {
        PlanModel::MSkipped
    } else if action.command@.len() == 0 {
        PlanModel::MError
    } else {
        match spec_parse_args(action.command.deep_view(), resolved, &action.input_filters, root) {
            Err(_) => PlanModel::MError,
            Ok(None) => PlanModel::MNotApplicable,
            Ok(Some(m)) => PlanModel::MRun(m),
        }
    }
}

/// Does every input this action filters resolve to a non-empty filtered
/// set? The planner's applicability check and the template expander agree on
/// this: both go through the same filtered sets.
pub fn has_unfiltered_input(
    action: &ActionDefinition,
    resolved: &ResolvedInputs,
    root: &str,
) -> (r: bool)
    requires
        action.wf(),
    ensures
        r == spec_applicable(action, resolved, root@),
{
    let keys = action.input_filters.inputs();
    let n = keys.len();
    let mut i: usize = 0;
    while i < n
        invariant
            action.wf(),
            n == keys@.len(),
            n == action.input_filters.entries_seq().len(),
            forall|k: int| 0 <= k < n ==> keys@[k]@ == action.input_filters.entries_seq()[k].0@,
            i <= n,
            forall|k: int| 0 <= k < i ==> ((#[trigger] spec_get_filtered(
                resolved,
                &action.input_filters,
                root@,
                action.input_filters.entries_seq()[k].0@,
            )) matches Ok(v) && v.len() > 0),
        decreases n - i,
    {
        let one = filtered_input(resolved, &action.input_filters, root, keys[i].as_str());
        match one {
            Err(_) => {
                proof {
                    assert(!spec_applicable(action, resolved, root@));
                }
                return false;
            },
            Ok(v) => {
                if v.len() == 0 {
                    proof {
                        assert((spec_get_filtered(
                            resolved,
                            &action.input_filters,
                            root@,
                            action.input_filters.entries_seq()[i as int].0@,
                        ) matches Ok(w) && w.len() == 0));
                        assert(!spec_applicable(action, resolved, root@));
                    }
                    return false;
                }
            },
        }
        i = i + 1;
    }
    true
}

/// Decide what to do with one action. `skip_list` is the environment's skip
/// list (comma- or newline-separated `source/id` entries); `resolved` holds
/// the resolver's answers for every input the action refers to.
pub fn plan_action(
    action: &ActionDefinition,
    resolved: &ResolvedInputs,
    skip_list: &str,
    root: &str,
) -> (r: ActionPlan)
    requires
        action.wf(),
    ensures
        plan_model(r) == spec_plan(action, resolved, skip_list@, root@),
        r matches ActionPlan::Run(a) ==> a.wf() && args_fresh(a.spec_args()),
{
    if !has_unfiltered_input(action, resolved, root) {
        return ActionPlan::NotApplicable;
    }
    let qualified = action.qualified_id();
    if list_contains_entry(skip_list, qualified.as_str()) {
        return ActionPlan::Skipped;
    }
    if action.command.len() == 0 {
        let message = concat3("No command defined in action '", qualified.as_str(), "'");
        return ActionPlan::Error(message);
    }
    match parse_args(&action.command, resolved, &action.input_filters, root) {
        Err(e) => {
            let message = concat3("Argument parsing failed: ", e.as_str(), "");
            ActionPlan::Error(message)
        },
        Ok(None) => ActionPlan::NotApplicable,
        Ok(Some(a)) => ActionPlan::Run(a),
    }
}

// ---------------------------------------------------------------------------
// Output buffers and the visibility policy.
// ---------------------------------------------------------------------------

/// One invocation's bytes appended to the running buffer, newline-terminated.
pub open spec fn append_norm(buf: Seq<u8>, out: Seq<u8>) -> Seq<u8> {
    let b = buf + out;
    if b.len() > 0 && b.last() == 10 {
        b
    } else {
        b.push(10)
    }
}

/// Append one invocation's output and terminate the buffer with a newline.
pub fn append_output(buf: &mut Vec<u8>, out: &[u8])
    ensures
        final(buf)@ == append_norm(old(buf)@, out@),
{
    let ghost gold = buf@;
    let mut k: usize = 0;
    let n = out.len();
    while k < n
        invariant
            n == out@.len(),
            k <= n,
            buf@ == gold + out@.subrange(0, k as int),
        decreases n - k,
    {
        buf.push(out[k]);
        proof {
            assert(buf@ =~= gold + out@.subrange(0, k as int + 1));
        }
        k = k + 1;
    }
    proof {
        assert(gold + out@.subrange(0, n as int) =~= gold + out@);
    }
    let len = buf.len();
    if len == 0 || buf[len - 1] != 10u8 {
        buf.push(10);
    }
}

/// Whether the policy keeps the captured output for this outcome.
pub open spec fn spec_output_kept(show: OutputCondition, succeeded: bool) -> bool {
    match show {
        OutputCondition::Never => false,
        OutputCondition::Success => succeeded,
        OutputCondition::Failure => !succeeded,
        OutputCondition::Always => true,
    }
}

/// Apply the show-output policy: blanking replaces both buffers with empty
/// ones. In particular `Never` yields empty output even on success.
pub fn apply_visibility(show: OutputCondition, succeeded: bool, stdout: Vec<u8>, stderr: Vec<u8>)
    -> (r: (Vec<u8>, Vec<u8>))
    ensures
        spec_output_kept(show, succeeded) ==> r.0@ == stdout@ && r.1@ == stderr@,
        !spec_output_kept(show, succeeded) ==> r.0@.len() == 0 && r.1@.len() == 0,
{
    let keep = match show {
        OutputCondition::Never => false,
        OutputCondition::Success => succeeded,
        OutputCondition::Failure => !succeeded,
        OutputCondition::Always => true,
    };
    if keep {
        (stdout, stderr)
    } else {
        (Vec::new(), Vec::new())
    }
}

// ---------------------------------------------------------------------------
// The invocation loop.
// ---------------------------------------------------------------------------

/// The state of one action's invocation loop: the argument schedule, the
/// accumulated output, and whether any invocation's exit code mismatched.
pub struct InvocationLoop {
    program: String,
    args: Args,
    expected_exit_code: i32,
    show_output: OutputCondition,
    stdout: Vec<u8>,
    stderr: Vec<u8>,
    mismatch: bool,
    done: bool,
}

impl InvocationLoop {
    pub closed spec fn spec_program(&self) -> Seq<char> {
        self.program@
    }

    pub closed spec fn spec_args(&self) -> Args {
        self.args
    }

    pub closed spec fn spec_expected(&self) -> int {
        self.expected_exit_code as int
    }

    pub closed spec fn spec_show(&self) -> OutputCondition {
        self.show_output
    }

    pub closed spec fn spec_stdout(&self) -> Seq<u8> {
        self.stdout@
    }

    pub closed spec fn spec_stderr(&self) -> Seq<u8> {
        self.stderr@
    }

    pub closed spec fn spec_mismatch(&self) -> bool {
        self.mismatch
    }

    pub closed spec fn spec_done(&self) -> bool {
        self.done
    }

    pub open spec fn wf(&self) -> bool {
        self.spec_args().wf()
    }

    /// Start the loop for one planned action: empty buffers, no mismatch
    /// seen, at the schedule's first combination.
    pub fn new(program: String, args: Args, expected_exit_code: i32, show_output: OutputCondition)
        -> (r: Self)
        requires
            args.wf(),
        ensures
            r.wf(),
            r.spec_program() == program@,
            r.spec_args() == args,
            r.spec_expected() == expected_exit_code as int,
            r.spec_show() == show_output,
            r.spec_stdout().len() == 0,
            r.spec_stderr().len() == 0,
            !r.spec_mismatch(),
            !r.spec_done(),
    {
        InvocationLoop {
            program,
            args,
            expected_exit_code,
            show_output,
            stdout: Vec::new(),
            stderr: Vec::new(),
            mismatch: false,
            done: false,
        }
    }

    pub fn is_done(&self) -> (r: bool)
        ensures
            r == self.spec_done(),
    {
        self.done
    }

    /// The argv of the next invocation: the program followed by the currently
    /// selected value of each argument position.
    pub fn current_command(&self) -> (r: Vec<String>)
        requires
            self.wf(),
        ensures
            r.deep_view() == seq![self.spec_program()] + self.spec_args().spec_current(),
    {
        let mut r: Vec<String> = Vec::new();
        r.push(self.program.clone());
        let mut rest = self.args.current_values();
        let ghost grest = rest.deep_view();
        r.append(&mut rest);
        proof {
            assert(r.deep_view() =~~= seq![self.spec_program()] + grest);
        }
        r
    }

    /// Record one finished invocation: append its output newline-terminated,
    /// note an unexpected exit code, and advance the schedule. Returns true
    /// once the schedule has wrapped: the loop is finished.
    pub fn record_invocation(&mut self, exit_code: Option<i32>, out: &[u8], err: &[u8]) -> (finished:
        bool)
        requires
            old(self).wf(),
            !old(self).spec_done(),
        ensures
            final(self).wf(),
            final(self).spec_program() == old(self).spec_program(),
            final(self).spec_expected() == old(self).spec_expected(),
            final(self).spec_show() == old(self).spec_show(),
            final(self).spec_stdout() == append_norm(old(self).spec_stdout(), out@),
            final(self).spec_stderr() == append_norm(old(self).spec_stderr(), err@),
            // an unexpected exit code is recorded and never forgotten
            final(self).spec_mismatch() == (old(self).spec_mismatch() || !(exit_code == Some(
                old(self).spec_expected() as i32,
            ))),
            // the schedule advances by one odometer step
            final(self).spec_args().spec_values() == old(self).spec_args().spec_values(),
            (final(self).spec_args().spec_positions(), finished) == spec_odometer_step(
                old(self).spec_args().spec_values(),
                old(self).spec_args().spec_positions(),
            ),
            final(self).spec_done() == finished,
    {
        let matched = match exit_code {
            Some(c) => c == self.expected_exit_code,
            None => false,
        };
        if !matched {
            self.mismatch = true;
        }
        append_output(&mut self.stdout, out);
        append_output(&mut self.stderr, err);
        let finished = self.args.increment();
        if finished {
            self.done = true;
        }
        finished
    }

    /// Classify the finished loop and apply the visibility policy: any
    /// mismatched exit code makes the result a warning; otherwise it is a
    /// success; the policy decides whether the collected output is kept.
    pub fn into_result(self) -> (r: ActionResult)
        requires
            self.spec_done(),
        ensures
            ({
                let succeeded = !self.spec_mismatch();
                let kept = spec_output_kept(self.spec_show(), succeeded);
                if succeeded {
                    r matches ActionResult::Success { stdout, stderr } && if kept {
                        stdout@ == self.spec_stdout() && stderr@ == self.spec_stderr()
                    } else {
                        stdout@.len() == 0 && stderr@.len() == 0
                    }
                } else {
                    r matches ActionResult::Warn { stdout, stderr } && if kept {
                        stdout@ == self.spec_stdout() && stderr@ == self.spec_stderr()
                    } else {
                        stdout@.len() == 0 && stderr@.len() == 0
                    }
                }
            }),
    {
        let succeeded = !self.mismatch;
        let (stdout, stderr) = apply_visibility(self.show_output, succeeded, self.stdout, self.stderr);
        if succeeded {
            ActionResult::Success { stdout, stderr }
        } else {
            ActionResult::Warn { stdout, stderr }
        }
    }
}

// ---------------------------------------------------------------------------
// The subprocess environment.
// ---------------------------------------------------------------------------

pub open spec fn env_has_key(s: Seq<(String, String)>, k: Seq<char>) -> bool {
    exists|j: int| 0 <= j < s.len() && s[j].0@ == k
}

/// The run-wide entries whose keys the action does not override, in order.
pub open spec fn spec_env_kept(extra: Seq<(String, String)>, act: Seq<(String, String)>) -> Seq<
    (String, String),
>
    decreases extra.len(),
{
    if extra.len() == 0 {
        Seq::empty()
    } else {
        let rest = spec_env_kept(extra.drop_last(), act);
        if env_has_key(act, extra.last().0@) {
            rest
        } else {
            rest.push(extra.last())
        }
    }
}

/// The environment of one subprocess: the run's extra entries and the
/// action's own, the action's winning on a key collision.
pub open spec fn spec_env_union(extra: Seq<(String, String)>, act: Seq<(String, String)>) -> Seq<
    (String, String),
> {
    spec_env_kept(extra, act) + act
}

/// Merge the run-wide environment with the action's own entries; on a key
/// collision the action's entry wins.
pub fn env_union(extra: &Vec<(String, String)>, act: &Vec<(String, String)>) -> (r: Vec<
    (String, String),
>)
    ensures
        r@ == spec_env_union(extra@, act@),
{
    let mut r: Vec<(String, String)> = Vec::new();
    let n = extra.len();
    let mut i: usize = 0;
    while i < n
        invariant
            n == extra@.len(),
            i <= n,
            r@ == spec_env_kept(extra@.subrange(0, i as int), act@),
        decreases n - i,
    {
        let mut overridden = false;
        let m = act.len();
        let mut j: usize = 0;
        while j < m
            invariant
                m == act@.len(),
                i < n == extra@.len(),
                j <= m,
                overridden ==> env_has_key(act@, extra@[i as int].0@),
                !overridden ==> forall|q: int| 0 <= q < j ==> act@[q].0@ != extra@[i as int].0@,
            decreases m - j,
        {
            if crate::strutil::str_eq(act[j].0.as_str(), extra[i].0.as_str()) {
                overridden = true;
            }
            j = j + 1;
        }
        proof {
            assert(extra@.subrange(0, i as int + 1).drop_last() =~= extra@.subrange(0, i as int));
            assert(extra@.subrange(0, i as int + 1).last() == extra@[i as int]);
        }
        if !overridden {
            proof {
                assert(!env_has_key(act@, extra@[i as int].0@));
            }
            r.push((extra[i].0.clone(), extra[i].1.clone()));
            proof {
                assert(r@.last() =~= extra@[i as int]);
                assert(r@ =~= spec_env_kept(extra@.subrange(0, i as int + 1), act@));
            }
        } else {
            proof {
                assert(r@ =~= spec_env_kept(extra@.subrange(0, i as int + 1), act@));
            }
        }
        i = i + 1;
    }
    proof {
        assert(extra@.subrange(0, n as int) =~= extra@);
    }
    let mut tail: Vec<(String, String)> = Vec::new();
    let m = act.len();
    let mut j: usize = 0;
    while j < m
        invariant
            m == act@.len(),
            j <= m,
            tail@.len() == j,
            forall|q: int| 0 <= q < j ==> tail@[q] == act@[q],
        decreases m - j,
    {
        tail.push((act[j].0.clone(), act[j].1.clone()));
        proof {
            assert(tail@.last() =~= act@[j as int]);
        }
        j = j + 1;
    }
    let ghost rbase = r@;
    let mut tail2 = tail;
    r.append(&mut tail2);
    proof {
        assert(tail@ =~= act@);
        assert(r@ =~= rbase + act@);
    }
    r
}

} // verus!
