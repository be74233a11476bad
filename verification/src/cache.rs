//! The input resolution cache: a single owner of the map from input-set name
//! to its resolved value or in-flight state.
//!
//! The surrounding application runs this as an actor: it owns one
//! [`InputCache`], feeds it queries and generator completions one at a time,
//! performs the [`QueryOutcome::Spawn`] actions it hands back, and sends each
//! returned reply over the caller's channel. The transition functions here
//! decide everything; the application only moves messages.

use vstd::prelude::*;

use crate::args::res_view;
use crate::strutil::concat3;
use crate::strutil::str_eq;

verus! {

/// One cache slot: a finished value (a success or a memoized failure), or a
/// generation in flight with the callers awaiting it.
#[derive(Debug)]
pub enum CacheEntry {
    Cached(Result<Vec<String>, String>),
    Generating(Vec<u64>),
}

/// The mathematical value of one cache slot.
pub enum EntryModel {
    Cached(Result<Seq<Seq<char>>, Seq<char>>),
    Generating(Seq<u64>),
}

/// Copy one resolver result.
fn clone_result(d: &Result<Vec<String>, String>) -> (r: Result<Vec<String>, String>)
    ensures
        res_view(r) == res_view(*d),
{
    match d {
        Ok(v) => {
            let c = v.clone();
            proof {
                assert(c.deep_view() =~= v.deep_view());
            }
            Ok(c)
        },
        Err(e) => Err(e.clone()),
    }
}

pub open spec fn entry_model(e: CacheEntry) -> EntryModel {
    match e {
        CacheEntry::Cached(d) => EntryModel::Cached(res_view(d)),
        CacheEntry::Generating(ws) => EntryModel::Generating(ws@),
    }
}

/// The generator work the application must start: compute the named input
/// set from the seeded data.
#[derive(Clone, Debug)]
pub struct GeneratorTask {
    /// The input set to generate.
    pub input: String,
    /// The seeded list of files to process.
    pub files: Vec<String>,
    /// The root directory of the run.
    pub top_directory: String,
}

/// What one query makes the actor do.
#[derive(Debug)]
pub enum QueryOutcome {
    /// Answer the caller now.
    Reply(Result<Vec<String>, String>),
    /// The value is being generated; the caller was added to the waiters.
    Wait,
    /// Start this generator task; the caller waits for its completion.
    Spawn(GeneratorTask),
}

/// The mathematical value of a query outcome.
pub enum OutcomeModel {
    MReply(Result<Seq<Seq<char>>, Seq<char>>),
    MWait,
    MSpawn,
}

pub open spec fn outcome_model(o: QueryOutcome) -> OutcomeModel {
    match o {
        QueryOutcome::Reply(d) => OutcomeModel::MReply(res_view(d)),
        QueryOutcome::Wait => OutcomeModel::MWait,
        QueryOutcome::Spawn(_) => OutcomeModel::MSpawn,
    }
}

/// The input sets that are seeded when the cache is built.
pub open spec fn seeded_kind(name: Seq<char>) -> bool {
    name == "files"@ || name == "top:directory"@
}

/// The input sets a generator can compute on first demand.
pub open spec fn generated_kind(name: Seq<char>) -> bool {
    name == "cargo_targets"@
}

/// How one query transforms one cache slot, and what it makes the actor do:
/// a cached value (or memoized error) is answered at once; an in-flight
/// generation absorbs the caller as one more waiter; an absent generated
/// input spawns its generator exactly here; an unknown name is answered with
/// an error that is never cached.
pub open spec fn spec_query_entry(e: Option<EntryModel>, name: Seq<char>, w: u64) -> (
    Option<EntryModel>,
    OutcomeModel,
) {
    match e {
        Some(EntryModel::Cached(d)) => (e, OutcomeModel::MReply(d)),
        Some(EntryModel::Generating(ws)) => (
            Some(EntryModel::Generating(ws.push(w))),
            OutcomeModel::MWait,
        ),
        None => if generated_kind(name) {
            (Some(EntryModel::Generating(seq![w])), OutcomeModel::MSpawn)
        } else {
            (None, OutcomeModel::MReply(Err("Input '"@ + name + "' is not supported"@)))
        },
    }
}

/// How a generator completion transforms its slot: the in-flight entry
/// becomes cached — success or failure alike — and every recorded waiter is
/// answered with that one result.
pub open spec fn spec_reply_entry(ws: Seq<u64>, data: Result<Seq<Seq<char>>, Seq<char>>) -> (
    EntryModel,
    Seq<u64>,
) {
    (EntryModel::Cached(data), ws)
}

/// The first entry of `s` whose key reads `name`, if any.
pub open spec fn lookup_entry(s: Seq<(String, CacheEntry)>, name: Seq<char>) -> Option<EntryModel>
    decreases s.len(),
{
    if s.len() == 0 {
        None
    } else if s[0].0@ == name {
        Some(entry_model(s[0].1))
    } else {
        lookup_entry(s.drop_first(), name)
    }
}

pub open spec fn unique_cache_keys(s: Seq<(String, CacheEntry)>) -> bool {
    forall|a: int, b: int| 0 <= a < b < s.len() ==> s[a].0@ != s[b].0@
}

/// The cache an input resolver actor owns exclusively.
pub struct InputCache {
    entries: Vec<(String, CacheEntry)>,
}

impl InputCache {
    pub closed spec fn entries_seq(&self) -> Seq<(String, CacheEntry)> {
        self.entries@
    }

    /// The model of one slot.
    pub open spec fn model_lookup(&self, name: Seq<char>) -> Option<EntryModel> {
        lookup_entry(self.entries_seq(), name)
    }

    /// The cache invariant: distinct names, and the two seeded input sets
    /// present as successes from construction on (the root directory set
    /// holds exactly one path).
    pub open spec fn wf(&self) -> bool {
        &&& unique_cache_keys(self.entries_seq())
        &&& self.model_lookup("files"@) matches Some(EntryModel::Cached(Ok(_)))
        &&& self.model_lookup("top:directory"@) matches Some(EntryModel::Cached(Ok(t)))
            && t.len() == 1
    }

    /// Seed the cache with the run's file list and root directory.
    pub fn new(current_directory: String, files: Vec<String>) -> (r: Self)
        ensures
            r.wf(),
            r.model_lookup("files"@) == Some(EntryModel::Cached(Ok(files.deep_view()))),
            r.model_lookup("top:directory"@) matches Some(EntryModel::Cached(Ok(t))) && t
                =~~= seq![current_directory@],
            forall|q: Seq<char>| !seeded_kind(q) ==> r.model_lookup(q) is None,
    {
        proof {
            reveal_strlit("files");
            reveal_strlit("top:directory");
        }
        let ghost gcd = current_directory@;
        let mut entries: Vec<(String, CacheEntry)> = Vec::new();
        entries.push(("files".to_owned(), CacheEntry::Cached(Ok(files))));
        let mut top: Vec<String> = Vec::new();
        top.push(current_directory);
        proof {
            assert(top.deep_view() =~= seq![gcd]);
        }
        entries.push(("top:directory".to_owned(), CacheEntry::Cached(Ok(top))));
        let r = InputCache { entries };
        proof {
            assert(r.entries_seq().len() == 2);
            assert(r.entries_seq()[0].0@ == "files"@);
            assert(r.entries_seq()[1].0@ == "top:directory"@);
            assert(r.entries_seq().drop_first()[0] == r.entries_seq()[1]);
            assert(r.entries_seq().drop_first().drop_first() =~= Seq::empty());
            assert("files"@ != "top:directory"@) by {
                assert("files"@.len() == 5 && "top:directory"@.len() == 13);
            }
            assert(lookup_entry(r.entries_seq(), "files"@) == Some(
                entry_model(r.entries_seq()[0].1),
            ));
            assert(lookup_entry(r.entries_seq(), "top:directory"@) == lookup_entry(
                r.entries_seq().drop_first(),
                "top:directory"@,
            ));
            assert(lookup_entry(r.entries_seq().drop_first(), "top:directory"@) == Some(
                entry_model(r.entries_seq()[1].1),
            ));
            assert forall|q: Seq<char>| !seeded_kind(q) implies r.model_lookup(q) is None by {
                assert(lookup_entry(r.entries_seq(), q) == lookup_entry(
                    r.entries_seq().drop_first(),
                    q,
                ));
                assert(lookup_entry(r.entries_seq().drop_first(), q) == lookup_entry(
                    r.entries_seq().drop_first().drop_first(),
                    q,
                ));
            }
        }
        r
    }

    /// The position of a name among the entries, under key uniqueness.
    fn find(&self, name: &str) -> (r: Option<usize>)
        ensures
            match r {
                Some(i) => i < self.entries_seq().len() && self.entries_seq()[i as int].0@ == name@
                    && self.model_lookup(name@) == Some(entry_model(self.entries_seq()[i as int].1)),
                None => self.model_lookup(name@) is None,
            },
    {
        let n = self.entries.len();
        proof {
            assert(self.entries@.skip(0) =~= self.entries@);
        }
        let mut i: usize = 0;
        while i < n
            invariant
                n == self.entries@.len(),
                i <= n,
                lookup_entry(self.entries@.skip(i as int), name@) == lookup_entry(
                    self.entries@,
                    name@,
                ),
            decreases n - i,
        {
            proof {
                assert(self.entries@.skip(i as int)[0] == self.entries@[i as int]);
                assert(self.entries@.skip(i as int).drop_first() =~= self.entries@.skip(
                    i as int + 1,
                ));
            }
            if str_eq(self.entries[i].0.as_str(), name) {
                return Some(i);
            }
            i = i + 1;
        }
        proof {
            assert(self.entries@.skip(n as int) =~= Seq::empty());
        }
        None
    }

    /// Process one query for the input set `input` from the caller `waiter`.
    /// The slot and the outcome follow [`spec_query_entry`]; every other
    /// slot stands untouched.
    pub fn handle_input_query(&mut self, input: &str, waiter: u64) -> (r: QueryOutcome)
        requires
            old(self).wf(),
        ensures
            final(self).wf(),
            forall|q: Seq<char>| q != input@ ==> final(self).model_lookup(q) == old(
                self,
            ).model_lookup(q),
            (final(self).model_lookup(input@), outcome_model(r)) == spec_query_entry(
                old(self).model_lookup(input@),
                input@,
                waiter,
            ),
            r matches QueryOutcome::Spawn(t) ==> {
                &&& t.input@ == input@
                &&& old(self).model_lookup("files"@) == Some(
                    EntryModel::Cached(Ok(t.files.deep_view())),
                )
                &&& (old(self).model_lookup("top:directory"@) matches Some(
                    EntryModel::Cached(Ok(tops)),
                ) && tops == seq![t.top_directory@])
            },
    {
        proof {
            reveal_strlit("cargo_targets");
        }
        match self.find(input) {
            Some(i) => {
                let ghost olds = self.entries@;
                let e = &mut self.entries[i];
                match &mut e.1 {
                    CacheEntry::Cached(d) => {
                        let reply = clone_result(d);
                        proof {
                            assert(self.entries@ =~= olds);
                            assert(res_view(reply) == res_view(olds[i as int].1->Cached_0));
                        }
                        QueryOutcome::Reply(reply)
                    },
                    CacheEntry::Generating(ws) => {
                        ws.push(waiter);
                        proof {
                            assert(self.entries@ =~= olds.update(i as int, self.entries@[i as int]));
                            assert(self.entries@[i as int].0@ == input@);
                            assert(self.entries@[i as int].1 matches CacheEntry::Generating(nws)
                                && nws@ == olds[i as int].1->Generating_0@.push(waiter));
                            lemma_lookup_entry_update(olds, i as int, self.entries@[i as int]);
                            assert(entry_model(olds[i as int].1) is Generating);
                            assert("files"@ != input@);
                            assert("top:directory"@ != input@);
                        }
                        QueryOutcome::Wait
                    },
                }
            },
            None => {
                if str_eq(input, "cargo_targets") {
                    let files = self.cached_files();
                    let top_directory = self.cached_top_directory();
                    let mut ws: Vec<u64> = Vec::new();
                    ws.push(waiter);
                    let ghost olds = self.entries@;
                    self.entries.push((input.to_owned(), CacheEntry::Generating(ws)));
                    proof {
                        lemma_lookup_entry_push(olds, self.entries@.last(), input@);
                        assert(self.entries@.last().1->Generating_0@ =~= seq![waiter]);
                        lemma_lookup_entry_none(olds, input@);
                        assert forall|a: int, b: int|
                            0 <= a < b < self.entries@.len() implies self.entries@[a].0@
                            != self.entries@[b].0@ by {
                            if b < self.entries@.len() - 1 {
                                assert(olds[a].0@ != olds[b].0@);
                            } else {
                                assert(olds[a].0@ != input@);
                            }
                        }
                        assert("files"@ != input@);
                        assert("top:directory"@ != input@);
                        assert forall|q: Seq<char>| q != input@ implies lookup_entry(
                            self.entries@,
                            q,
                        ) == lookup_entry(olds, q) by {
                            if lookup_entry(olds, q) is None {
                                lemma_lookup_entry_push(olds, self.entries@.last(), q);
                            } else {
                                lemma_lookup_entry_push_found(olds, self.entries@.last(), q);
                            }
                        }
                    }
                    QueryOutcome::Spawn(GeneratorTask { input: input.to_owned(), files, top_directory })
                } else {
                    QueryOutcome::Reply(
                        Err(concat3("Input '", input, "' is not supported")),
                    )
                }
            },
        }
    }

    /// Record a finished generation for `input`: the slot becomes cached —
    /// a failure is memoized like a success — and the returned waiters must
    /// each be answered with this same `data`.
    pub fn handle_generator_reply(&mut self, input: &str, data: Result<Vec<String>, String>) -> (r:
        Vec<u64>)
        requires
            old(self).wf(),
            old(self).model_lookup(input@) matches Some(EntryModel::Generating(_)),
        ensures
            final(self).wf(),
            forall|q: Seq<char>| q != input@ ==> final(self).model_lookup(q) == old(
                self,
            ).model_lookup(q),
            ({
                let ws = old(self).model_lookup(input@)->Some_0->Generating_0;
                let (slot, notify) = spec_reply_entry(ws, res_view(data));
                &&& final(self).model_lookup(input@) == Some(slot)
                &&& r@ == notify
            }),
    {
        let found = self.find(input);
        match found {
            Some(i) => {
                let ghost olds = self.entries@;
                let mut out: Vec<u64> = Vec::new();
                let e = &mut self.entries[i];
                match &mut e.1 {
                    CacheEntry::Generating(ws) => {
                        core::mem::swap(ws, &mut out);
                    },
                    CacheEntry::Cached(_) => {
                        proof {
                            assert(false);
                        }
                    },
                }
                let e2 = &mut self.entries[i];
                e2.1 = CacheEntry::Cached(data);
                proof {
                    assert(self.entries@[i as int].0@ == input@);
                    assert(self.entries@ =~= olds.update(i as int, self.entries@[i as int]));
                    lemma_lookup_entry_update(olds, i as int, self.entries@[i as int]);
                    assert(entry_model(olds[i as int].1) is Generating);
                    assert(out@ == olds[i as int].1->Generating_0@);
                    assert("files"@ != input@);
                    assert("top:directory"@ != input@);
                }
                out
            },
            None => {
                proof {
                    assert(false);
                }
                Vec::new()
            },
        }
    }

    /// The seeded file list.
    fn cached_files(&self) -> (r: Vec<String>)
        requires
            self.wf(),
        ensures
            self.model_lookup("files"@) == Some(EntryModel::Cached(Ok(r.deep_view()))),
    {
        proof {
            reveal_strlit("files");
        }
        match self.find("files") {
            Some(i) => match &self.entries[i].1 {
                CacheEntry::Cached(d) => match d {
                    Ok(v) => v.clone(),
                    Err(_) => {
                        proof {
                            assert(false);
                        }
                        Vec::new()
                    },
                },
                CacheEntry::Generating(_) => {
                    proof {
                        assert(false);
                    }
                    Vec::new()
                },
            },
            None => {
                proof {
                    assert(false);
                }
                Vec::new()
            },
        }
    }

    /// The seeded root directory.
    fn cached_top_directory(&self) -> (r: String)
        requires
            self.wf(),
        ensures
            self.model_lookup("top:directory"@) matches Some(EntryModel::Cached(Ok(t))) && t
                == seq![r@],
    {
        proof {
            reveal_strlit("top:directory");
        }
        match self.find("top:directory") {
            Some(i) => match &self.entries[i].1 {
                CacheEntry::Cached(d) => match d {
                    Ok(v) => {
                        let s = v[0].clone();
                        proof {
                            assert(v.deep_view() =~= seq![s@]);
                        }
                        s
                    },
                    Err(_) => {
                        proof {
                            assert(false);
                        }
                        String::new()
                    },
                },
                CacheEntry::Generating(_) => {
                    proof {
                        assert(false);
                    }
                    String::new()
                },
            },
            None => {
                proof {
                    assert(false);
                }
                String::new()
            },
        }
    }
}

/// Updating the entry at `i` (keeping its key) changes only that key's
/// lookup.
proof fn lemma_lookup_entry_update(s: Seq<(String, CacheEntry)>, i: int, e: (String, CacheEntry))
    requires
        unique_cache_keys(s),
        0 <= i < s.len(),
        e.0@ == s[i].0@,
    ensures
        lookup_entry(s.update(i, e), s[i].0@) == Some(entry_model(e.1)),
        forall|q: Seq<char>| q != s[i].0@ ==> lookup_entry(s.update(i, e), q) == lookup_entry(s, q),
        unique_cache_keys(s.update(i, e)),
    decreases s.len(),
{
    assert forall|a: int, b: int| 0 <= a < b < s.update(i, e).len() implies s.update(i, e)[a].0@
        != s.update(i, e)[b].0@ by {
        assert(s[a].0@ != s[b].0@);
    }
    if i == 0 {
        assert(s.update(0, e)[0] == e);
        assert(s.update(0, e).drop_first() =~= s.drop_first());
        assert forall|q: Seq<char>| q != s[0].0@ implies lookup_entry(s.update(0, e), q)
            == lookup_entry(s, q) by {
            assert(lookup_entry(s.update(0, e), q) == lookup_entry(s.update(0, e).drop_first(), q));
        }
    } else {
        assert(s.update(i, e)[0] == s[0]);
        assert(s.update(i, e).drop_first() =~= s.drop_first().update(i - 1, e));
        assert(s[0].0@ != s[i].0@);
        assert(unique_cache_keys(s.drop_first())) by {
            assert forall|a: int, b: int|
                0 <= a < b < s.drop_first().len() implies s.drop_first()[a].0@
                != s.drop_first()[b].0@ by {
                assert(s.drop_first()[a] == s[a + 1] && s.drop_first()[b] == s[b + 1]);
            }
        }
        assert(s.drop_first()[i - 1] == s[i]);
        lemma_lookup_entry_update(s.drop_first(), i - 1, e);
        assert forall|q: Seq<char>| q != s[i].0@ implies lookup_entry(s.update(i, e), q)
            == lookup_entry(s, q) by {
            if q != s[0].0@ {
                assert(lookup_entry(s.update(i, e), q) == lookup_entry(
                    s.drop_first().update(i - 1, e),
                    q,
                ));
                assert(lookup_entry(s.drop_first().update(i - 1, e), q) == lookup_entry(
                    s.drop_first(),
                    q,
                ));
            }
        }
        assert(lookup_entry(s.update(i, e), s[i].0@) == lookup_entry(
            s.drop_first().update(i - 1, e),
            s[i].0@,
        ));
    }
}

/// A name that lookup misses names no entry at all.
proof fn lemma_lookup_entry_none(s: Seq<(String, CacheEntry)>, q: Seq<char>)
    requires
        lookup_entry(s, q) is None,
    ensures
        forall|j: int| 0 <= j < s.len() ==> s[j].0@ != q,
    decreases s.len(),
{
    if s.len() > 0 {
        lemma_lookup_entry_none(s.drop_first(), q);
        assert forall|j: int| 0 <= j < s.len() implies s[j].0@ != q by {
            if j > 0 {
                assert(s.drop_first()[j - 1] == s[j]);
            }
        }
    }
}

proof fn lemma_lookup_entry_push(s: Seq<(String, CacheEntry)>, e: (String, CacheEntry), name: Seq<char>)
    requires
        lookup_entry(s, name) is None,
    ensures
        lookup_entry(s.push(e), name) == if e.0@ == name {
            Some(entry_model(e.1))
        } else {
            None::<EntryModel>
        },
    decreases s.len(),
{
    if s.len() == 0 {
        assert(s.push(e)[0] == e);
        assert(s.push(e).drop_first() =~= Seq::empty());
        if e.0@ == name {
            assert(lookup_entry(s.push(e), name) == Some(entry_model(e.1)));
        } else {
            assert(lookup_entry(s.push(e), name) == lookup_entry(s.push(e).drop_first(), name));
        }
    } else {
        assert(s.push(e)[0] == s[0]);
        assert(s[0].0@ != name);
        assert(s.push(e).drop_first() =~= s.drop_first().push(e));
        lemma_lookup_entry_push(s.drop_first(), e, name);
        assert(lookup_entry(s.push(e), name) == lookup_entry(s.drop_first().push(e), name));
    }
}

proof fn lemma_lookup_entry_push_found(
    s: Seq<(String, CacheEntry)>,
    e: (String, CacheEntry),
    name: Seq<char>,
)
    requires
        lookup_entry(s, name) is Some,
    ensures
        lookup_entry(s.push(e), name) == lookup_entry(s, name),
    decreases s.len(),
{
    if s.len() > 0 {
        assert(s.push(e)[0] == s[0]);
        assert(s.push(e).drop_first() =~= s.drop_first().push(e));
        if s[0].0@ != name {
            lemma_lookup_entry_push_found(s.drop_first(), e, name);
        }
    }
}

// ---------------------------------------------------------------------------
// Laws of the cache.
// ---------------------------------------------------------------------------

/// The slot after a burst of queries that all land while a generation is in
/// flight, and whether each of them merely waited.
pub open spec fn spec_apply_queries(e: Option<EntryModel>, name: Seq<char>, ws: Seq<u64>) -> (
    Option<EntryModel>,
    bool,
)
    decreases ws.len(),
{
    if ws.len() == 0 {
        (e, true)
    } else {
        let (e1, out1) = spec_query_entry(e, name, ws[0]);
        let (e2, rest_waited) = spec_apply_queries(e1, name, ws.drop_first());
        (e2, (out1 is MWait) && rest_waited)
    }
}

proof fn lemma_apply_queries_generating(ws0: Seq<u64>, name: Seq<char>, ws: Seq<u64>)
    ensures
        spec_apply_queries(Some(EntryModel::Generating(ws0)), name, ws) == (
            Some(EntryModel::Generating(ws0 + ws)),
            true,
        ),
    decreases ws.len(),
{
    if ws.len() == 0 {
        assert(ws0 + ws =~= ws0);
    } else {
        lemma_apply_queries_generating(ws0.push(ws[0]), name, ws.drop_first());
        assert(ws0.push(ws[0]) + ws.drop_first() =~= ws0 + ws);
    }
}

/// Law (single flight): any number of concurrent queries for an unresolved
/// generated input spawn exactly one generator — the first query spawns it,
/// every later one only waits — and when the generator completes, all of
/// them are answered, in order, with that one identical result, success or
/// error alike.
pub proof fn lemma_single_flight(
    name: Seq<char>,
    ws: Seq<u64>,
    data: Result<Seq<Seq<char>>, Seq<char>>,
)
    requires
        generated_kind(name),
        ws.len() >= 1,
    ensures
        ({
            let (e1, out1) = spec_query_entry(None, name, ws[0]);
            let (e2, rest_waited) = spec_apply_queries(e1, name, ws.drop_first());
            &&& out1 is MSpawn
            &&& rest_waited
            &&& e2 == Some(EntryModel::Generating(ws))
            &&& spec_reply_entry(e2->Some_0->Generating_0, data) == (
                EntryModel::Cached(data),
                ws,
            )
        }),
{
    let (e1, out1) = spec_query_entry(None, name, ws[0]);
    lemma_apply_queries_generating(seq![ws[0]], name, ws.drop_first());
    assert(seq![ws[0]] + ws.drop_first() =~= ws);
}

/// Law (memoized errors): once a generated input's generator has finished
/// with an error, every later query for that name is answered with that same
/// error, and nothing is spawned or re-run for it.
pub proof fn lemma_memoized_error(name: Seq<char>, ws: Seq<u64>, e: Seq<char>, w: u64)
    ensures
        ({
            let (slot, _notify) = spec_reply_entry(ws, Err(e));
            spec_query_entry(Some(slot), name, w) == (
                Some(EntryModel::Cached(Err(e))),
                OutcomeModel::MReply(Err(e)),
            )
        }),
{
}

} // verus!
