//! The plain data a configuration file yields for one action, and the small
//! helpers that turn its fields into run-time values. Reading the files,
//! deserializing them and merging configuration layers stay with the
//! application.

use vstd::prelude::*;

use crate::actions::OutputCondition;
use crate::ids::ActionId;
use crate::strutil::find_char;

verus! {

/// How one configured action entry combines with the layers below it.
#[derive(Clone, Copy, Debug, PartialEq, Eq, Structural)]
pub enum MergeAction {
    /// Hide the action an earlier layer defined.
    Hide,
    /// Change fields of the action an earlier layer defined.
    Change,
    /// Define a new action.
    Add,
}

impl Default for MergeAction {
    fn default() -> (r: Self)
        ensures
            r == MergeAction::Add,
    {
        MergeAction::Add
    }
}

/// One action entry as a configuration file states it: every field beyond
/// the name is optional.
#[derive(Clone, Debug)]
pub struct TomlActionDefinition {
    pub name: ActionId,
    pub merge: MergeAction,
    pub description: Option<String>,
    pub command: Option<String>,
    pub environment: Option<Vec<String>>,
    pub run_sequentially: Option<bool>,
    pub exit_code: Option<i32>,
    pub show_output: Option<OutputCondition>,
    pub inputs: Option<Vec<(String, Vec<String>)>>,
}

/// One declared environment entry split at its first `=`: the key before it,
/// the value after it, and an empty value when there is none.
pub open spec fn spec_env_entry(s: Seq<char>) -> (Seq<char>, Seq<char>) {
    if exists|k: int| 0 <= k < s.len() && s[k] == '='
        {
        let k = choose|k: int|
            0 <= k < s.len() && s[k] == '=' && (forall|j: int| 0 <= j < k ==> s[j] != '=');
        (s.subrange(0, k), s.subrange(k + 1, s.len() as int))
    } else {
        (s, Seq::empty())
    }
}

/// Split each `KEY=VALUE` declaration into its pair; a declaration without
/// `=` becomes a key with an empty value.
pub fn map_environment(environment: &Vec<String>) -> (r: Vec<(String, String)>)
    ensures
        r@.len() == environment@.len(),
        forall|q: int|
            0 <= q < r@.len() ==> ((#[trigger] r@[q]).0@, r@[q].1@) == spec_env_entry(
                environment@[q]@,
            ),
{
    let n = environment.len();
    let mut r: Vec<(String, String)> = Vec::new();
    let mut i: usize = 0;
    while i < n
        invariant
            n == environment@.len(),
            i <= n,
            r@.len() == i,
            forall|q: int|
                0 <= q < i ==> ((#[trigger] r@[q]).0@, r@[q].1@) == spec_env_entry(
                    environment@[q]@,
                ),
        decreases n - i,
    {
        let s = environment[i].as_str();
        let pair = match find_char(s, '=') {
            Some(k) => {
                let m = s.unicode_len();
                let key = s.substring_char(0, k);
                let value = s.substring_char(k + 1, m);
                (key.to_owned(), value.to_owned())
            },
            None => (environment[i].clone(), String::new()),
        };
        r.push(pair);
        i = i + 1;
    }
    r
}

} // verus!
