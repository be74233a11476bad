//! Action definitions, their results, and the ordered iteration over a
//! selected subset of a run's action list.

use vstd::prelude::*;

use crate::filters::InputFilters;
use crate::strutil::concat3;

verus! {

/// When the captured output of an action is kept in its reported result.
#[derive(Clone, Copy, Debug, PartialEq, Eq, Structural)]
pub enum OutputCondition {
    /// Blank the output whatever the outcome.
    Never,
    /// Keep the output only when the action succeeded.
    Success,
    /// Keep the output only when the action failed.
    Failure,
    /// Keep the output whatever the outcome.
    Always,
}

/// One configured invocation of an external tool, immutable for the length
/// of a run.
#[derive(Clone, Debug)]
pub struct ActionDefinition {
    /// The action's name.
    pub id: String,
    /// The configuration layer that defined the action.
    pub source: String,
    /// A human-readable description.
    pub description: String,
    /// Run in the sequential phase instead of the parallel one.
    pub run_sequentially: bool,
    /// The executable and the argument template: the first entry is spawned,
    /// the rest may hold `{{name}}` and `{{name...}}` placeholders.
    pub command: Vec<String>,
    /// The exit code that counts as success.
    pub expected_exit_code: i32,
    /// When captured output is kept in the result.
    pub show_output: OutputCondition,
    /// Per-input glob filters.
    pub input_filters: InputFilters,
    /// Extra environment entries for this action's subprocesses; they win
    /// over the run-wide ones on a key collision.
    pub environment: Vec<(String, String)>,
}

impl ActionDefinition {
    /// An action is well-formed when its filters are.
    pub open spec fn wf(&self) -> bool {
        self.input_filters.wf()
    }

    /// The `source/id` pair that identifies the action across layers.
    pub fn qualified_id(&self) -> (r: String)
        ensures
            r@ == self.source@ + "/"@ + self.id@,
    {
        concat3(self.source.as_str(), "/", self.id.as_str())
    }
}

/// The one terminal outcome every action reports.
#[derive(Clone, Debug)]
pub enum ActionResult {
    /// Every invocation exited with the expected code.
    Success { stdout: Vec<u8>, stderr: Vec<u8> },
    /// The action was listed in the skip list.
    Skipped,
    /// A required input had no matching files.
    NotApplicable,
    /// Some invocation exited with an unexpected code.
    Warn { stdout: Vec<u8>, stderr: Vec<u8> },
    /// The action could not run; the run as a whole continues.
    Error { message: String },
}

/// One event of the per-run stream handed to the reporter: for each action,
/// `Started` first, then exactly one `Done`.
#[derive(Clone, Debug)]
pub enum ActionUpdate {
    Started { action_id: String },
    Done { action_id: String, result: ActionResult },
}

/// Iterates over the actions selected by a set of indices, in ascending
/// index order, each action once.
#[derive(Clone, Debug)]
pub struct ActionDefinitionIterator<'a> {
    actions: &'a [ActionDefinition],
    indices: Vec<usize>,
    current_item: usize,
}

pub open spec fn strictly_sorted(s: Seq<usize>) -> bool {
    forall|a: int, b: int| 0 <= a < b < s.len() ==> s[a] < s[b]
}

impl<'a> ActionDefinitionIterator<'a> {
    pub closed spec fn spec_actions(&self) -> Seq<ActionDefinition> {
        self.actions@
    }

    pub closed spec fn spec_indices(&self) -> Seq<usize> {
        self.indices@
    }

    pub closed spec fn spec_position(&self) -> int {
        self.current_item as int
    }

    /// Select the actions at `indices`: the iterator visits the distinct
    /// indices in ascending order.
    pub fn new(actions: &'a [ActionDefinition], indices: Vec<usize>) -> (r: Self)
        ensures
            r.spec_actions() == actions@,
            r.spec_position() == 0,
            strictly_sorted(r.spec_indices()),
            forall|v: usize| r.spec_indices().contains(v) <==> indices@.contains(v),
    {
        let n = indices.len();
        let mut sorted: Vec<usize> = Vec::new();
        let mut i: usize = 0;
        while i < n
            invariant
                n == indices@.len(),
                i <= n,
                strictly_sorted(sorted@),
                forall|v: usize| sorted@.contains(v) <==> indices@.subrange(0, i as int).contains(v),
            decreases n - i,
        {
            let x = indices[i];
            // Find the insertion point; skip when already present.
            let m = sorted.len();
            let mut pos: usize = 0;
            while pos < m && sorted[pos] < x
                invariant
                    m == sorted@.len(),
                    pos <= m,
                    strictly_sorted(sorted@),
                    forall|k: int| 0 <= k < pos ==> sorted@[k] < x,
                decreases m - pos,
            {
                pos = pos + 1;
            }
            let present = pos < m && sorted[pos] == x;
            proof {
                if !present {
                    assert forall|k: int| 0 <= k < sorted@.len() implies sorted@[k] != x by {
                        if k >= pos as int {
                            if k > pos as int {
                                assert(sorted@[pos as int] < sorted@[k]);
                            }
                        }
                    }
                    assert(!sorted@.contains(x));
                }
            }
            proof {
                assert(indices@.subrange(0, i as int + 1).drop_last() =~= indices@.subrange(
                    0,
                    i as int,
                ));
                assert(indices@.subrange(0, i as int + 1).last() == indices@[i as int]);
            }
            if present {
                proof {
                    assert forall|v: usize|
                        sorted@.contains(v) <==> indices@.subrange(0, i as int + 1).contains(v) by {
                        if indices@.subrange(0, i as int + 1).contains(v) {
                            if v == x {
                                assert(sorted@[pos as int] == x);
                                assert(sorted@.contains(v));
                            }
                        }
                    }
                }
            } else {
                let ghost old_sorted = sorted@;
                sorted.insert(pos, x);
                proof {
                    assert(sorted@ =~= old_sorted.insert(pos as int, x));
                    assert forall|a: int, b: int|
                        0 <= a < b < sorted@.len() implies sorted@[a] < sorted@[b] by {
                        if a < pos as int && b == pos as int {
                            assert(sorted@[a] == old_sorted[a]);
                        } else if a == pos as int && b > pos as int {
                            assert(sorted@[b] == old_sorted[b - 1]);
                            assert(!(old_sorted[b - 1] < x));
                            assert(old_sorted[b - 1] != x) by {
                                if old_sorted[b - 1] == x {
                                    assert(old_sorted.contains(x));
                                    assert(indices@.subrange(0, i as int).contains(x));
                                }
                            }
                        } else if a < pos as int && b > pos as int {
                            assert(sorted@[a] == old_sorted[a]);
                            assert(sorted@[b] == old_sorted[b - 1]);
                        } else if a > pos as int {
                            assert(sorted@[a] == old_sorted[a - 1]);
                            assert(sorted@[b] == old_sorted[b - 1]);
                        }
                    }
                    assert forall|v: usize|
                        sorted@.contains(v) <==> indices@.subrange(0, i as int + 1).contains(v) by {
                        if sorted@.contains(v) {
                            let k = choose|k: int| 0 <= k < sorted@.len() && sorted@[k] == v;
                            if k == pos as int {
                                assert(v == x);
                            } else if k < pos as int {
                                assert(old_sorted[k] == v);
                                assert(old_sorted.contains(v));
                            } else {
                                assert(old_sorted[k - 1] == v);
                                assert(old_sorted.contains(v));
                            }
                        }
                        if indices@.subrange(0, i as int + 1).contains(v) {
                            if v == x {
                                assert(sorted@[pos as int] == x);
                                assert(sorted@.contains(v));
                            } else {
                                assert(indices@.subrange(0, i as int).contains(v));
                                assert(old_sorted.contains(v));
                                let k = choose|k: int|
                                    0 <= k < old_sorted.len() && old_sorted[k] == v;
                                if k < pos as int {
                                    assert(sorted@[k] == v);
                                } else {
                                    assert(sorted@[k + 1] == v);
                                }
                                assert(sorted@.contains(v));
                            }
                        }
                    }
                }
            }
            i = i + 1;
        }
        proof {
            assert(indices@.subrange(0, n as int) =~= indices@);
        }
        ActionDefinitionIterator { actions, indices: sorted, current_item: 0 }
    }

    /// The next selected action, or `None` once the indices are exhausted
    /// or the next index lies outside the action list.
    pub fn next(&mut self) -> (r: Option<&'a ActionDefinition>)
        ensures
            final(self).spec_actions() == old(self).spec_actions(),
            final(self).spec_indices() == old(self).spec_indices(),
            final(self).spec_position() == if old(self).spec_position() < old(
                self,
            ).spec_indices().len() {
                old(self).spec_position() + 1
            } else {
                old(self).spec_position()
            },
            r matches Some(a) ==> {
                &&& old(self).spec_position() < old(self).spec_indices().len()
                &&& (old(self).spec_indices()[old(self).spec_position()] as int) < old(
                    self,
                ).spec_actions().len()
                &&& *a == old(self).spec_actions()[old(self).spec_indices()[old(
                    self,
                ).spec_position()] as int]
            },
            r is None ==> (old(self).spec_position() >= old(self).spec_indices().len() || old(
                self,
            ).spec_indices()[old(self).spec_position()] as int >= old(self).spec_actions().len()),
    {
        let cur = self.current_item;
        if cur < self.indices.len() {
            self.current_item = cur + 1;
            let idx = self.indices[cur];
            if idx < self.actions.len() {
                Some(&self.actions[idx])
            } else {
                None
            }
        } else {
            None
        }
    }
}

} // verus!
