//! Per-action, per-input glob filters, and the path filtering they induce.

use vstd::prelude::*;

use crate::strutil::concat2;
use crate::strutil::concat3;
use crate::strutil::has_prefix;
use crate::strutil::is_prefix_of;
use crate::strutil::str_eq;

verus! {

/// Whether `glob::Pattern::new` accepts a pattern; it depends on the pattern
/// text alone.
pub uninterp spec fn glob_pattern_ok(p: Seq<char>) -> bool;

/// What `glob::Pattern::matches_with` returns for a pattern and a path, with
/// literal separator matching required and case sensitivity on; it depends on
/// the two texts alone.
pub uninterp spec fn glob_matched(p: Seq<char>, path: Seq<char>) -> bool;

/// Relies on `glob::Pattern::new`: whether a pattern text compiles.
#[verifier::external_body]
pub(crate) fn glob_pattern_valid(p: &str) -> (r: bool)
    ensures
        r == glob_pattern_ok(p@),
{
    glob::Pattern::new(p).is_ok()
}

/// Relies on `glob::Pattern::matches_with` with literal separator matching:
/// no wildcard crosses a `/` unless written explicitly.
#[verifier::external_body]
pub(crate) fn glob_match(pattern: &str, path: &str) -> (r: bool)
    requires
        glob_pattern_ok(pattern@),
    ensures
        r == glob_matched(pattern@, path@),
{
    let options = glob::MatchOptions {
        case_sensitive: true,
        require_literal_separator: true,
        require_literal_leading_dot: false,
    };
    match glob::Pattern::new(pattern) {
        Ok(p) => p.matches_with(path, options),
        Err(_) => false,
    }
}

/// The path relative to `root`: the remainder after `root` and a path
/// separator, the empty path for `root` itself, and the path unchanged when
/// it does not lie below `root`.
pub open spec fn spec_relative_to(path: Seq<char>, root: Seq<char>) -> Seq<char> {
    if root.len() == 0 {
        path
    } else if path == root {
        Seq::<char>::empty()
    } else if is_prefix_of(root + "/"@, path) {
        path.subrange(root.len() as int + 1, path.len() as int)
    } else {
        path
    }
}

/// Strip `root` (and the separator after it) off the front of `path`.
pub fn relative_to(path: &str, root: &str) -> (r: String)
    ensures
        r@ == spec_relative_to(path@, root@),
{
    if root.unicode_len() == 0 {
        return path.to_owned();
    }
    if str_eq(path, root) {
        return String::new();
    }
    let prefix = concat2(root, "/");
    if has_prefix(path, prefix.as_str()) {
        proof {
            reveal_strlit("/");
            assert(prefix@.len() == root@.len() + 1);
        }
        let n = path.unicode_len();
        let start = root.unicode_len() + 1;
        let rest = path.substring_char(start, n);
        rest.to_owned()
    } else {
        path.to_owned()
    }
}

/// Does the relative form of `path` match any pattern of `pats`? An empty
/// pattern list matches everything.
pub open spec fn spec_path_kept(pats: Seq<Seq<char>>, path: Seq<char>, root: Seq<char>) -> bool {
    pats.len() == 0 || exists|k: int|
        0 <= k < pats.len() && glob_matched(pats[k], spec_relative_to(path, root))
}

/// The paths of `raw` whose relative form matches the pattern list, in their
/// original order.
pub open spec fn spec_filtered(pats: Seq<Seq<char>>, raw: Seq<Seq<char>>, root: Seq<char>) -> Seq<
    Seq<char>,
>
    decreases raw.len(),
{
    if raw.len() == 0 {
        Seq::empty()
    } else {
        let rest = spec_filtered(pats, raw.drop_last(), root);
        if spec_path_kept(pats, raw.last(), root) {
            rest.push(raw.last())
        } else {
            rest
        }
    }
}

/// Filters for the named inputs of one action: for each input name, the glob
/// patterns a path must match (relative to the run's root directory) to be
/// handed to the action.
#[derive(Clone, Debug, Default)]
pub struct InputFilters {
    entries: Vec<(String, Vec<String>)>,
}

/// The first entry of `s` whose key reads `name`, if any.
pub open spec fn lookup_in(s: Seq<(String, Vec<String>)>, name: Seq<char>) -> Option<
    Seq<Seq<char>>,
>
    decreases s.len(),
{
    if s.len() == 0 {
        None
    } else if s[0].0@ == name {
        Some(s[0].1.deep_view())
    } else {
        lookup_in(s.drop_first(), name)
    }
}

pub open spec fn unique_keys(s: Seq<(String, Vec<String>)>) -> bool {
    forall|a: int, b: int| 0 <= a < b < s.len() ==> s[a].0@ != s[b].0@
}

pub open spec fn all_patterns_ok(s: Seq<(String, Vec<String>)>) -> bool {
    forall|a: int, b: int|
        0 <= a < s.len() && 0 <= b < s[a].1@.len() ==> glob_pattern_ok(#[trigger] s[a].1@[b]@)
}

impl InputFilters {
    pub closed spec fn entries_seq(&self) -> Seq<(String, Vec<String>)> {
        self.entries@
    }

    /// The invariant every constructed filter set satisfies: distinct input
    /// names, every pattern a valid glob.
    pub open spec fn wf(&self) -> bool {
        unique_keys(self.entries_seq()) && all_patterns_ok(self.entries_seq())
    }

    /// The patterns filed under an input name.
    pub open spec fn spec_lookup(&self, name: Seq<char>) -> Option<Seq<Seq<char>>> {
        lookup_in(self.entries_seq(), name)
    }

    pub fn new() -> (r: Self)
        ensures
            r.wf(),
            r.entries_seq().len() == 0,
    {
        InputFilters { entries: Vec::new() }
    }

    /// Build a filter set from `(name, patterns)` pairs. Rejects a repeated
    /// name and any pattern that is not a valid glob.
    pub fn from_pairs(pairs: Vec<(String, Vec<String>)>) -> (r: Result<Self, String>)
        ensures
            r is Ok <==> unique_keys(pairs@) && all_patterns_ok(pairs@),
            r matches Ok(f) ==> f.entries_seq() == pairs@ && f.wf(),
    {
        let n = pairs.len();
        let mut i: usize = 0;
        while i < n
            invariant
                n == pairs@.len(),
                i <= n,
                forall|a: int, b: int| 0 <= a < b < i ==> pairs@[a].0@ != pairs@[b].0@,
                forall|a: int, b: int|
                    0 <= a < i && 0 <= b < pairs@[a].1@.len() ==> glob_pattern_ok(
                        #[trigger] pairs@[a].1@[b]@,
                    ),
            decreases n - i,
        {
            let mut j: usize = 0;
            while j < i
                invariant
                    i < n == pairs@.len(),
                    j <= i,
                    forall|b: int| 0 <= b < j ==> pairs@[b].0@ != pairs@[i as int].0@,
                decreases i - j,
            {
                if str_eq(pairs[j].0.as_str(), pairs[i].0.as_str()) {
                    return Err(
                        concat3("Redefinition of input filters for '", pairs[i].0.as_str(), "'"),
                    );
                }
                j = j + 1;
            }
            let pats = &pairs[i].1;
            let m = pats.len();
            let mut k: usize = 0;
            while k < m
                invariant
                    i < n == pairs@.len(),
                    m == pairs@[i as int].1@.len(),
                    k <= m,
                    forall|b: int| 0 <= b < k ==> glob_pattern_ok(#[trigger] pairs@[i as int].1@[b]@),
            decreases m - k,
            {
                if !glob_pattern_valid(pairs[i].1[k].as_str()) {
                    return Err(
                        concat3("Failed to parse glob pattern '", pairs[i].1[k].as_str(), "'"),
                    );
                }
                k = k + 1;
            }
            i = i + 1;
        }
        Ok(InputFilters { entries: pairs })
    }

    /// The patterns filed under `name`, if any.
    pub fn get(&self, name: &str) -> (r: Option<&Vec<String>>)
        ensures
            match r {
                Some(v) => self.spec_lookup(name@) == Some(v.deep_view()),
                None => self.spec_lookup(name@) is None,
            },
    {
        let n = self.entries.len();
        proof {
            assert(self.entries@.skip(0) =~= self.entries@);
        }
        let mut i: usize = 0;
        while i < n
            invariant
                n == self.entries@.len(),
                i <= n,
                lookup_in(self.entries@.skip(i as int), name@) == lookup_in(self.entries@, name@),
                forall|a: int| 0 <= a < i ==> self.entries@[a].0@ != name@,
            decreases n - i,
        {
            proof {
                assert(self.entries@.skip(i as int)[0] == self.entries@[i as int]);
                assert(self.entries@.skip(i as int).drop_first() =~= self.entries@.skip(
                    i as int + 1,
                ));
            }
            if str_eq(self.entries[i].0.as_str(), name) {
                return Some(&self.entries[i].1);
            }
            i = i + 1;
        }
        proof {
            assert(self.entries@.skip(n as int) =~= Seq::empty());
        }
        None
    }

    /// The input names this filter set mentions, in their stored order.
    pub fn inputs(&self) -> (r: Vec<String>)
        ensures
            r@.len() == self.entries_seq().len(),
            forall|k: int| 0 <= k < r@.len() ==> r@[k]@ == self.entries_seq()[k].0@,
    {
        let n = self.entries.len();
        let mut r: Vec<String> = Vec::new();
        let mut i: usize = 0;
        while i < n
            invariant
                n == self.entries@.len(),
                i <= n,
                r@.len() == i,
                forall|k: int| 0 <= k < i ==> r@[k]@ == self.entries@[k].0@,
            decreases n - i,
        {
            r.push(self.entries[i].0.clone());
            i = i + 1;
        }
        r
    }

    /// Apply a layer of filter updates: a pair with patterns replaces (or
    /// adds) that input's filters; a pair with an empty pattern list removes
    /// them and demands that they existed. Rejects the same inputs as
    /// building a filter set does.
    pub fn update_from(&mut self, pairs: Vec<(String, Vec<String>)>) -> (r: Result<(), String>)
        requires
            old(self).wf(),
        ensures
            final(self).wf(),
            r is Ok <==> unique_keys(pairs@) && all_patterns_ok(pairs@) && (forall|j: int|
                0 <= j < pairs@.len() && (#[trigger] pairs@[j]).1@.len() == 0 ==> lookup_in(
                    old(self).entries_seq(),
                    pairs@[j].0@,
                ) is Some),
            r is Ok ==> forall|q: Seq<char>| #![auto] final(self).spec_lookup(q) == match lookup_in(
                pairs@,
                q,
            ) {
                None => old(self).spec_lookup(q),
                Some(v) => if v.len() == 0 {
                    None
                } else {
                    Some(v)
                },
            },
    {
        // Validate the whole layer first, as building a filter set would.
        let n = pairs.len();
        let mut i: usize = 0;
        while i < n
            invariant
                self == old(self),
                self.wf(),
                n == pairs@.len(),
                i <= n,
                forall|a: int, b: int| 0 <= a < b < i ==> pairs@[a].0@ != pairs@[b].0@,
                forall|a: int, b: int|
                    0 <= a < i && 0 <= b < pairs@[a].1@.len() ==> glob_pattern_ok(
                        #[trigger] pairs@[a].1@[b]@,
                    ),
            decreases n - i,
        {
            let mut j: usize = 0;
            while j < i
                invariant
                    self == old(self),
                    self.wf(),
                    i < n == pairs@.len(),
                    j <= i,
                    forall|b: int| 0 <= b < j ==> pairs@[b].0@ != pairs@[i as int].0@,
                decreases i - j,
            {
                if str_eq(pairs[j].0.as_str(), pairs[i].0.as_str()) {
                    proof {
                        assert(!unique_keys(pairs@));
                    }
                    return Err(
                        concat3("Redefinition of input filters for '", pairs[i].0.as_str(), "'"),
                    );
                }
                j = j + 1;
            }
            let m = pairs[i].1.len();
            let mut k: usize = 0;
            while k < m
                invariant
                    self == old(self),
                    self.wf(),
                    i < n == pairs@.len(),
                    m == pairs@[i as int].1@.len(),
                    k <= m,
                    forall|b: int| 0 <= b < k ==> glob_pattern_ok(#[trigger] pairs@[i as int].1@[b]@),
                decreases m - k,
            {
                if !glob_pattern_valid(pairs[i].1[k].as_str()) {
                    proof {
                        assert(!all_patterns_ok(pairs@));
                    }
                    return Err(
                        concat3("Failed to parse glob pattern '", pairs[i].1[k].as_str(), "'"),
                    );
                }
                k = k + 1;
            }
            i = i + 1;
        }
        // Apply the updates one input at a time.
        let ghost olds = self.entries@;
        let mut i: usize = 0;
        while i < n
            invariant
                olds == old(self).entries_seq(),
                n == pairs@.len(),
                i <= n,
                unique_keys(pairs@),
                all_patterns_ok(pairs@),
                self.wf(),
                forall|j: int|
                    0 <= j < i && (#[trigger] pairs@[j]).1@.len() == 0 ==> lookup_in(
                        olds,
                        pairs@[j].0@,
                    ) is Some,
                forall|q: Seq<char>| #![auto] lookup_in(self.entries@, q) == match lookup_in(
                    pairs@.subrange(0, i as int),
                    q,
                ) {
                    None => lookup_in(olds, q),
                    Some(v) => if v.len() == 0 {
                        None
                    } else {
                        Some(v)
                    },
                },
            decreases n - i,
        {
            proof {
                // The key is new among the first `i` pairs.
                assert forall|j: int|
                    0 <= j < i implies pairs@.subrange(0, i as int)[j].0@ != pairs@[i as int].0@ by {
                    assert(pairs@.subrange(0, i as int)[j] == pairs@[j]);
                }
                lemma_lookup_in_absent(pairs@.subrange(0, i as int), pairs@[i as int].0@);
                assert(pairs@.subrange(0, i as int + 1).drop_last() =~= pairs@.subrange(
                    0,
                    i as int,
                ));
            }
            let empty_patterns = pairs[i].1.len() == 0;
            let ghost before = self.entries@;
            let ghost gkey = pairs@[i as int].0@;
            let found = self.position_of(pairs[i].0.as_str());
            if empty_patterns {
                match found {
                    Some(idx) => {
                        proof {
                            if lookup_in(before, gkey) is None {
                                lemma_lookup_in_none(before, gkey);
                            }
                            assert(lookup_in(before, gkey) is Some);
                            assert(lookup_in(olds, gkey) is Some);
                        }
                        let _removed = self.entries.remove(idx);
                        proof {
                            lemma_lookup_in_remove(before, idx as int);
                            assert(lookup_in(self.entries@, gkey) is None);
                            assert(forall|q: Seq<char>|
                                q != gkey ==> lookup_in(self.entries@, q) == lookup_in(before, q));
                        }
                    },
                    None => {
                        proof {
                            assert(lookup_in(olds, gkey) is None);
                        }
                        return Err(
                            concat3(
                                "'",
                                pairs[i].0.as_str(),
                                "' does not exist when trying to remove it from inputs",
                            ),
                        );
                    },
                }
            } else {
                if let Some(idx) = found {
                    let _removed = self.entries.remove(idx);
                    proof {
                        lemma_lookup_in_remove(before, idx as int);
                    }
                }
                let ghost mid = self.entries@;
                let key = pairs[i].0.clone();
                let pats = pairs[i].1.clone();
                proof {
                    assert(pats.deep_view() =~~= pairs@[i as int].1.deep_view());
                    assert forall|b: int| 0 <= b < pats@.len() implies glob_pattern_ok(
                        #[trigger] pats@[b]@,
                    ) by {
                        assert(pats@[b]@ == pairs@[i as int].1@[b]@);
                    }
                    lemma_lookup_in_none(mid, key@);
                }
                self.entries.push((key, pats));
                proof {
                    lemma_lookup_in_push(mid, self.entries@.last());
                    assert(self.entries@.last().1.deep_view() =~~= pairs@[i as int].1.deep_view());
                    assert(lookup_in(self.entries@, gkey) == Some(pairs@[i as int].1.deep_view()));
                    assert forall|q: Seq<char>| q != gkey implies lookup_in(self.entries@, q)
                        == lookup_in(before, q) by {
                        assert(lookup_in(self.entries@, q) == lookup_in(mid, q));
                    }
                }
            }
            proof {
                lemma_lookup_in_sub_push(
                    pairs@.subrange(0, i as int),
                    pairs@.subrange(0, i as int + 1),
                    pairs@[i as int],
                );
                assert(lookup_in(pairs@.subrange(0, i as int + 1), gkey) == Some(
                    pairs@[i as int].1.deep_view(),
                ));
                assert(pairs@[i as int].1.deep_view().len() == pairs@[i as int].1@.len());
                assert forall|q: Seq<char>| #![auto] lookup_in(self.entries@, q) == match lookup_in(
                    pairs@.subrange(0, i as int + 1),
                    q,
                ) {
                    None => lookup_in(olds, q),
                    Some(v) => if v.len() == 0 {
                        None
                    } else {
                        Some(v)
                    },
                } by {
                    if q != gkey {
                        assert(lookup_in(pairs@.subrange(0, i as int + 1), q) == lookup_in(
                            pairs@.subrange(0, i as int),
                            q,
                        ));
                        assert(lookup_in(self.entries@, q) == lookup_in(before, q));
                    }
                }
            }
            i = i + 1;
        }
        proof {
            assert(pairs@.subrange(0, n as int) =~= pairs@);
        }
        Ok(())
    }

    /// The position of an input name among the entries.
    fn position_of(&self, name: &str) -> (r: Option<usize>)
        requires
            self.wf(),
        ensures
            match r {
                Some(i) => i < self.entries_seq().len() && self.entries_seq()[i as int].0@ == name@,
                None => self.spec_lookup(name@) is None,
            },
    {
        let n = self.entries.len();
        proof {
            assert(self.entries@.skip(0) =~= self.entries@);
        }
        let mut i: usize = 0;
        while i < n
            invariant
                n == self.entries@.len(),
                i <= n,
                lookup_in(self.entries@.skip(i as int), name@) == lookup_in(self.entries@, name@),
            decreases n - i,
        {
            proof {
                assert(self.entries@.skip(i as int)[0] == self.entries@[i as int]);
                assert(self.entries@.skip(i as int).drop_first() =~= self.entries@.skip(
                    i as int + 1,
                ));
            }
            if str_eq(self.entries[i].0.as_str(), name) {
                return Some(i);
            }
            i = i + 1;
        }
        proof {
            assert(self.entries@.skip(n as int) =~= Seq::empty());
        }
        None
    }

    /// Filter the raw paths of the input `name`: a path stays when its form
    /// relative to `root` matches one of the patterns filed under `name`, or
    /// when no pattern restricts that input.
    pub fn filtered(&self, name: &str, raw: &Vec<String>, root: &str) -> (r: Vec<String>)
        requires
            self.wf(),
        ensures
            r.deep_view() == spec_filtered(
                match self.spec_lookup(name@) {
                    Some(p) => p,
                    None => Seq::empty(),
                },
                raw.deep_view(),
                root@,
            ),
    {
        let pats_opt = self.get(name);
        let ghost pats_view = match self.spec_lookup(name@) {
            Some(p) => p,
            None => Seq::empty(),
        };
        let n = raw.len();
        let mut r: Vec<String> = Vec::new();
        let mut i: usize = 0;
        while i < n
            invariant
                self.wf(),
                n == raw@.len(),
                i <= n,
                match pats_opt {
                    Some(v) => self.spec_lookup(name@) == Some(v.deep_view()),
                    None => self.spec_lookup(name@) is None,
                },
                pats_view == match self.spec_lookup(name@) {
                    Some(p) => p,
                    None => Seq::<Seq<char>>::empty(),
                },
                r.deep_view() == spec_filtered(pats_view, raw.deep_view().subrange(0, i as int), root@),
            decreases n - i,
        {
            let rel = relative_to(raw[i].as_str(), root);
            let keep = match pats_opt {
                None => true,
                Some(pats) => {
                    if pats.len() == 0 {
                        true
                    } else {
                        let mut found = false;
                        let m = pats.len();
                        let mut k: usize = 0;
                        while k < m && !found
                            invariant
                                self.wf(),
                                m == pats@.len(),
                                k <= m,
                                self.spec_lookup(name@) == Some(pats.deep_view()),
                                rel@ == spec_relative_to(raw.deep_view()[i as int], root@),
                                i < raw@.len(),
                                found ==> exists|q: int|
                                    0 <= q < k && glob_matched(pats.deep_view()[q], rel@),
                                !found ==> forall|q: int|
                                    0 <= q < k ==> !glob_matched(#[trigger] pats.deep_view()[q], rel@),
                            decreases m - k,
                        {
                            proof {
                                lemma_lookup_patterns_ok(self.entries@, name@, pats.deep_view());
                                assert(pats.deep_view()[k as int] == pats@[k as int]@);
                            }
                            if glob_match(pats[k].as_str(), rel.as_str()) {
                                found = true;
                            }
                            k = k + 1;
                        }
                        found
                    }
                },
            };
            proof {
                assert(raw.deep_view().subrange(0, i as int + 1).drop_last() =~= raw.deep_view()
                    .subrange(0, i as int));
                assert(raw.deep_view().subrange(0, i as int + 1).last() == raw.deep_view()[i as int]);
            }
            if keep {
                r.push(raw[i].clone());
                proof {
                    assert(r.deep_view() =~= spec_filtered(
                        pats_view,
                        raw.deep_view().subrange(0, i as int + 1),
                        root@,
                    ));
                }
            } else {
                proof {
                    assert(r.deep_view() =~= spec_filtered(
                        pats_view,
                        raw.deep_view().subrange(0, i as int + 1),
                        root@,
                    ));
                }
            }
            i = i + 1;
        }
        proof {
            assert(raw.deep_view().subrange(0, n as int) =~= raw.deep_view());
        }
        r
    }
}

/// A name that lookup misses names no entry at all.
proof fn lemma_lookup_in_none(s: Seq<(String, Vec<String>)>, q: Seq<char>)
    requires
        lookup_in(s, q) is None,
    ensures
        forall|j: int| 0 <= j < s.len() ==> s[j].0@ != q,
    decreases s.len(),
{
    if s.len() > 0 {
        lemma_lookup_in_none(s.drop_first(), q);
        assert forall|j: int| 0 <= j < s.len() implies s[j].0@ != q by {
            if j > 0 {
                assert(s.drop_first()[j - 1] == s[j]);
            }
        }
    }
}

/// A name no entry bears is missed by lookup.
proof fn lemma_lookup_in_absent(s: Seq<(String, Vec<String>)>, q: Seq<char>)
    requires
        forall|j: int| 0 <= j < s.len() ==> s[j].0@ != q,
    ensures
        lookup_in(s, q) is None,
    decreases s.len(),
{
    if s.len() > 0 {
        assert forall|j: int| 0 <= j < s.drop_first().len() implies s.drop_first()[j].0@ != q by {
            assert(s.drop_first()[j] == s[j + 1]);
        }
        lemma_lookup_in_absent(s.drop_first(), q);
    }
}

/// Removing the entry at `i` (under key uniqueness) only clears that key's
/// lookup.
proof fn lemma_lookup_in_remove(s: Seq<(String, Vec<String>)>, i: int)
    requires
        unique_keys(s),
        0 <= i < s.len(),
    ensures
        lookup_in(s.remove(i), s[i].0@) is None,
        forall|q: Seq<char>| q != s[i].0@ ==> lookup_in(s.remove(i), q) == lookup_in(s, q),
        unique_keys(s.remove(i)),
    decreases s.len(),
{
    assert forall|a: int, b: int| 0 <= a < b < s.remove(i).len() implies s.remove(i)[a].0@
        != s.remove(i)[b].0@ by {
        let a2 = if a < i {
            a
        } else {
            a + 1
        };
        let b2 = if b < i {
            b
        } else {
            b + 1
        };
        assert(s.remove(i)[a] == s[a2] && s.remove(i)[b] == s[b2]);
    }
    assert forall|j: int| 0 <= j < s.remove(i).len() implies s.remove(i)[j].0@ != s[i].0@ by {
        if j < i {
            assert(s.remove(i)[j] == s[j]);
        } else {
            assert(s.remove(i)[j] == s[j + 1]);
        }
    }
    lemma_lookup_in_absent(s.remove(i), s[i].0@);
    if i == 0 {
        assert(s.remove(0) =~= s.drop_first());
    } else {
        assert(s.remove(i)[0] == s[0]);
        assert(s.remove(i).drop_first() =~= s.drop_first().remove(i - 1));
        assert(unique_keys(s.drop_first())) by {
            assert forall|a: int, b: int|
                0 <= a < b < s.drop_first().len() implies s.drop_first()[a].0@
                != s.drop_first()[b].0@ by {
                assert(s.drop_first()[a] == s[a + 1] && s.drop_first()[b] == s[b + 1]);
            }
        }
        assert(s.drop_first()[i - 1] == s[i]);
        lemma_lookup_in_remove(s.drop_first(), i - 1);
        assert forall|q: Seq<char>| q != s[i].0@ implies lookup_in(s.remove(i), q) == lookup_in(
            s,
            q,
        ) by {
            if q != s[0].0@ {
                assert(lookup_in(s.remove(i), q) == lookup_in(s.drop_first().remove(i - 1), q));
                assert(lookup_in(s.drop_first().remove(i - 1), q) == lookup_in(s.drop_first(), q));
            }
        }
    }
}

/// Appending an entry whose key lookup misses adds exactly that key.
proof fn lemma_lookup_in_push(s: Seq<(String, Vec<String>)>, e: (String, Vec<String>))
    requires
        lookup_in(s, e.0@) is None,
    ensures
        lookup_in(s.push(e), e.0@) == Some(e.1.deep_view()),
        forall|q: Seq<char>| q != e.0@ ==> lookup_in(s.push(e), q) == lookup_in(s, q),
    decreases s.len(),
{
    if s.len() == 0 {
        assert(s.push(e)[0] == e);
        assert(s.push(e).drop_first() =~= Seq::<(String, Vec<String>)>::empty());
        assert forall|q: Seq<char>| q != e.0@ implies lookup_in(s.push(e), q) == lookup_in(
            s,
            q,
        ) by {
            assert(lookup_in(s.push(e), q) == lookup_in(s.push(e).drop_first(), q));
            assert(lookup_in(s.push(e).drop_first(), q) is None);
            assert(lookup_in(s, q) is None);
        }
    } else {
        assert(s.push(e)[0] == s[0]);
        assert(s[0].0@ != e.0@);
        assert(s.push(e).drop_first() =~= s.drop_first().push(e));
        lemma_lookup_in_push(s.drop_first(), e);
        assert(lookup_in(s.push(e), e.0@) == lookup_in(s.drop_first().push(e), e.0@));
        assert forall|q: Seq<char>| q != e.0@ implies lookup_in(s.push(e), q) == lookup_in(
            s,
            q,
        ) by {
            if q != s[0].0@ {
                assert(lookup_in(s.push(e), q) == lookup_in(s.drop_first().push(e), q));
                assert(lookup_in(s.drop_first().push(e), q) == lookup_in(s.drop_first(), q));
                assert(lookup_in(s, q) == lookup_in(s.drop_first(), q));
            } else {
                assert(lookup_in(s.push(e), q) == Some(s[0].1.deep_view()));
                assert(lookup_in(s, q) == Some(s[0].1.deep_view()));
            }
        }
    }
}

/// One step of a first-match lookup over a growing prefix: the new entry
/// matters only for names the prefix misses.
proof fn lemma_lookup_in_sub_push(
    prefix: Seq<(String, Vec<String>)>,
    extended: Seq<(String, Vec<String>)>,
    e: (String, Vec<String>),
)
    requires
        extended =~= prefix.push(e),
        lookup_in(prefix, e.0@) is None,
    ensures
        lookup_in(extended, e.0@) == Some(e.1.deep_view()),
        forall|q: Seq<char>| q != e.0@ ==> lookup_in(extended, q) == lookup_in(prefix, q),
{
    lemma_lookup_in_push(prefix, e);
}

/// Every pattern list a well-formed filter set hands out consists of valid
/// globs.
proof fn lemma_lookup_patterns_ok(s: Seq<(String, Vec<String>)>, name: Seq<char>, pats: Seq<Seq<char>>)
    requires
        all_patterns_ok(s),
        lookup_in(s, name) == Some(pats),
    ensures
        forall|k: int| 0 <= k < pats.len() ==> glob_pattern_ok(#[trigger] pats[k]),
    decreases s.len(),
{
    if s.len() > 0 {
        if s[0].0@ == name {
            assert(pats == s[0].1.deep_view());
            assert forall|k: int| 0 <= k < pats.len() implies glob_pattern_ok(#[trigger] pats[k]) by {
                assert(pats[k] == s[0].1@[k]@);
                assert(glob_pattern_ok(s[0].1@[k]@));
            }
        } else {
            assert(all_patterns_ok(s.drop_first())) by {
                assert forall|a: int, b: int|
                    0 <= a < s.drop_first().len() && 0 <= b < s.drop_first()[a].1@.len()
                    implies glob_pattern_ok(#[trigger] s.drop_first()[a].1@[b]@) by {
                    assert(s.drop_first()[a] == s[a + 1]);
                    assert(glob_pattern_ok(s[a + 1].1@[b]@));
                }
            }
            lemma_lookup_patterns_ok(s.drop_first(), name, pats);
        }
    }
}

} // verus!
