//! Command template expansion: splitting argv tokens into literal and
//! placeholder parts, resolving placeholders against named input sets, and
//! the mixed-radix repeat schedule over the resulting argument values.

use vstd::prelude::*;

use crate::filters::InputFilters;
use crate::filters::spec_filtered;
use crate::strutil::concat2;
use crate::strutil::concat3;
use crate::strutil::has_prefix;
use crate::strutil::has_suffix;
use crate::strutil::is_prefix_of;
use crate::strutil::is_suffix_of;
use crate::strutil::str_eq;

verus! {

// ---------------------------------------------------------------------------
// Splitting one argv token into literal runs and placeholder tokens.
// ---------------------------------------------------------------------------

/// The scanner's state while splitting a token.
#[derive(Clone, Copy, Debug, PartialEq, Eq, Structural)]
pub enum SplitState {
    /// In literal text.
    Outside,
    /// One `{` seen.
    OneOpenBrace,
    /// Between `{{` and the closing braces.
    Inside,
    /// One `}` seen after `{{`.
    OneClosingBrace,
}

/// One scanner step: the state, the text of the part being built, and the
/// finished parts, advanced by one character.
pub open spec fn split_step(
    st: SplitState,
    cur: Seq<char>,
    parts: Seq<Seq<char>>,
    c: char,
) -> (SplitState, Seq<char>, Seq<Seq<char>>) {
    if c == '{' {
        match st {
            SplitState::Outside => (SplitState::OneOpenBrace, cur, parts),
            SplitState::OneOpenBrace => {
                let parts2 = if cur.len() > 0 {
                    parts.push(cur)
                } else {
                    parts
                };
                (SplitState::Inside, "{{"@, parts2)
            },
            _ => (st, cur, parts),
        }
    } else if c == '}' {
        match st {
            SplitState::OneOpenBrace => (SplitState::Outside, cur + "{}"@, parts),
            SplitState::Inside => (SplitState::OneClosingBrace, cur + "}"@, parts),
            SplitState::OneClosingBrace => (
                SplitState::Outside,
                Seq::empty(),
                parts.push(cur + "}"@),
            ),
            SplitState::Outside => (SplitState::Outside, cur + "}"@, parts),
        }
    } else {
        match st {
            SplitState::OneOpenBrace => (SplitState::Outside, (cur + "{"@).push(c), parts),
            SplitState::OneClosingBrace => (SplitState::Inside, cur.push(c), parts),
            _ => (st, cur.push(c), parts),
        }
    }
}

/// The scanner's state after consuming the first `i` characters of `s`.
pub open spec fn split_run(s: Seq<char>, i: int) -> (SplitState, Seq<char>, Seq<Seq<char>>)
    decreases i,
{
    if i <= 0 {
        (SplitState::Outside, Seq::empty(), Seq::empty())
    } else {
        let prev = split_run(s, i - 1);
        split_step(prev.0, prev.1, prev.2, s[i - 1])
    }
}

/// What `split_arg` returns: the finished parts, plus the trailing part when
/// it is not empty.
pub open spec fn spec_split_arg(s: Seq<char>) -> Seq<Seq<char>> {
    let r = split_run(s, s.len() as int);
    if r.1.len() > 0 {
        r.2.push(r.1)
    } else {
        r.2
    }
}

/// Split one argv token into literal runs and balanced `{{...}}` placeholder
/// tokens, in order. A lone brace stays literal text.
pub fn split_arg(arg: &str) -> (r: Vec<String>)
    ensures
        r.deep_view() == spec_split_arg(arg@),
{
    let n = arg.unicode_len();
    let mut state = SplitState::Outside;
    let mut current = String::new();
    let mut result: Vec<String> = Vec::new();
    let mut i: usize = 0;
    while i < n
        invariant
            n == arg@.len(),
            i <= n,
            split_run(arg@, i as int) == (state, current@, result.deep_view()),
        decreases n - i,
    {
        let c = arg.get_char(i);
        let ghost prev_cur = current@;
        let ghost prev_parts = result.deep_view();
        proof {
            assert(arg@.subrange(i as int, i as int + 1) =~~= seq![arg@[i as int]]);
        }
        if c == '{' {
            match state {
                SplitState::Outside => {
                    state = SplitState::OneOpenBrace;
                },
                SplitState::OneOpenBrace => {
                    if !current.as_str().is_empty() {
                        result.push(current);
                    }
                    current = "{{".to_owned();
                    state = SplitState::Inside;
                    proof {
                        assert(result.deep_view() =~~= if prev_cur.len() > 0 {
                            prev_parts.push(prev_cur)
                        } else {
                            prev_parts
                        });
                    }
                },
                _ => {},
            }
        } else if c == '}' {
            match state {
                SplitState::OneOpenBrace => {
                    current.append("{}");
                    state = SplitState::Outside;
                },
                SplitState::Inside => {
                    current.append("}");
                    state = SplitState::OneClosingBrace;
                },
                SplitState::OneClosingBrace => {
                    current.append("}");
                    result.push(current);
                    current = String::new();
                    state = SplitState::Outside;
                    proof {
                        assert(result.deep_view() =~~= prev_parts.push(prev_cur + "}"@));
                    }
                },
                SplitState::Outside => {
                    current.append("}");
                },
            }
        } else {
            match state {
                SplitState::OneOpenBrace => {
                    current.append("{");
                    current.append(arg.substring_char(i, i + 1));
                    state = SplitState::Outside;
                    proof {
                        assert(current@ =~~= (prev_cur + "{"@).push(arg@[i as int]));
                    }
                },
                SplitState::OneClosingBrace => {
                    current.append(arg.substring_char(i, i + 1));
                    state = SplitState::Inside;
                    proof {
                        assert(current@ =~~= prev_cur.push(arg@[i as int]));
                    }
                },
                _ => {
                    current.append(arg.substring_char(i, i + 1));
                    proof {
                        assert(current@ =~~= prev_cur.push(arg@[i as int]));
                    }
                },
            }
        }
        i = i + 1;
    }
    if !current.as_str().is_empty() {
        result.push(current);
    }
    result
}

// ---------------------------------------------------------------------------
// Recognizing placeholder tokens.
// ---------------------------------------------------------------------------

/// A part that is exactly `{{name}}` (scalar) or `{{name...}}` (array).
pub open spec fn spec_placeholder(s: Seq<char>) -> Option<(Seq<char>, bool)> {
    if s.len() >= 4 && is_prefix_of("{{"@, s) && is_suffix_of("}}"@, s) {
        let inner = s.subrange(2, s.len() - 2);
        if is_suffix_of("..."@, inner) {
            Some((inner.subrange(0, inner.len() - 3), true))
        } else {
            Some((inner, false))
        }
    } else {
        None
    }
}

/// Recognize a placeholder token: the input-set name between `{{` and `}}`,
/// and whether the trailing `...` marks it as an array placeholder.
pub fn parse_placeholder(part: &str) -> (r: Option<(String, bool)>)
    ensures
        match r {
            Some(p) => spec_placeholder(part@) == Some((p.0@, p.1)),
            None => spec_placeholder(part@) is None,
        },
{
    proof {
        reveal_strlit("{{");
        reveal_strlit("}}");
        reveal_strlit("...");
    }
    let n = part.unicode_len();
    if !(has_prefix(part, "{{") && has_suffix(part, "}}")) {
        return None;
    }
    proof {
        // Both fences present: the token holds at least `{{}}`.
        if n < 4 {
            assert(part@.subrange(0, 2)[0] == part@[0]);
            assert(part@.subrange(0, 2)[1] == part@[1]);
            assert(part@[0] == '{' && part@[1] == '{');
            assert(part@.subrange(part@.len() - 2, part@.len() as int)[0] == part@[part@.len()
                - 2]);
            assert(part@[part@.len() - 2] == '}');
        }
    }
    let inner = part.substring_char(2, n - 2);
    if has_suffix(inner, "...") {
        let m = inner.unicode_len();
        let name = inner.substring_char(0, m - 3);
        Some((name.to_owned(), true))
    } else {
        Some((inner.to_owned(), false))
    }
}

// ---------------------------------------------------------------------------
// One argument position and the repeat schedule over all of them.
// ---------------------------------------------------------------------------

/// One argv position: an ordered, non-empty list of candidate values and a
/// cursor selecting the current one.
#[derive(Clone, Debug)]
pub struct Arg {
    values: Vec<String>,
    current_pos: usize,
}

impl Arg {
    pub closed spec fn spec_values(&self) -> Seq<Seq<char>> {
        self.values.deep_view()
    }

    pub closed spec fn spec_pos(&self) -> int {
        self.current_pos as int
    }

    pub open spec fn wf(&self) -> bool {
        self.spec_values().len() > 0 && 0 <= self.spec_pos() < self.spec_values().len()
    }

    pub fn new(values: Vec<String>) -> (r: Arg)
        requires
            values@.len() > 0,
        ensures
            r.spec_values() == values.deep_view(),
            r.spec_pos() == 0,
            r.wf(),
    {
        Arg { values, current_pos: 0 }
    }

    /// The currently selected value.
    pub fn current(&self) -> (r: &String)
        requires
            self.wf(),
        ensures
            r@ == self.spec_values()[self.spec_pos()],
    {
        &self.values[self.current_pos]
    }

    /// Advance the cursor; wrap to the start and report `true` on overflow.
    pub fn increment(&mut self) -> (wrapped: bool)
        requires
            old(self).wf(),
        ensures
            final(self).spec_values() == old(self).spec_values(),
            final(self).wf(),
            if old(self).spec_pos() + 1 < old(self).spec_values().len() {
                final(self).spec_pos() == old(self).spec_pos() + 1 && !wrapped
            } else {
                final(self).spec_pos() == 0 && wrapped
            },
    {
        proof {
            assert(self.spec_values().len() == self.values@.len());
        }
        let l = self.values.len();
        if self.current_pos >= l - 1 {
            self.current_pos = 0;
            true
        } else {
            self.current_pos = self.current_pos + 1;
            false
        }
    }
}

// ---------------------------------------------------------------------------
// Quoting and resolved input sets.
// ---------------------------------------------------------------------------

/// What `shell_words::quote` returns for a value; it depends on the value
/// alone.
pub uninterp spec fn shell_quoted(s: Seq<char>) -> Seq<char>;

/// Relies on `shell_words::quote`: minimal POSIX-shell quoting of one value.
#[verifier::external_body]
fn quote_value(s: &str) -> (r: String)
    ensures
        r@ == shell_quoted(s@),
{
    shell_words::quote(s).into_owned()
}

/// The mathematical value of one resolver answer.
pub open spec fn res_view(r: Result<Vec<String>, String>) -> Result<Seq<Seq<char>>, Seq<char>> {
    match r {
        Ok(v) => Ok(v.deep_view()),
        Err(e) => Err(e@),
    }
}

/// The first entry of `s` whose key reads `name`, if any.
pub open spec fn lookup_resolved(
    s: Seq<(String, Result<Vec<String>, String>)>,
    name: Seq<char>,
) -> Option<Result<Seq<Seq<char>>, Seq<char>>>
    decreases s.len(),
{
    if s.len() == 0 {
        None
    } else if s[0].0@ == name {
        Some(res_view(s[0].1))
    } else {
        lookup_resolved(s.drop_first(), name)
    }
}

/// The raw contents of the named input sets an action refers to, as the
/// resolver answered them: a path list, or the resolver's error.
pub struct ResolvedInputs {
    entries: Vec<(String, Result<Vec<String>, String>)>,
}

proof fn lemma_lookup_resolved_push(
    s: Seq<(String, Result<Vec<String>, String>)>,
    e: (String, Result<Vec<String>, String>),
    name: Seq<char>,
)
    requires
        lookup_resolved(s, name) is None,
    ensures
        lookup_resolved(s.push(e), name) == if e.0@ == name {
            Some(res_view(e.1))
        } else {
            None::<Result<Seq<Seq<char>>, Seq<char>>>
        },
    decreases s.len(),
{
    if s.len() == 0 {
        assert(s.push(e)[0] == e);
        assert(s.push(e).drop_first() =~~= Seq::empty());
        if e.0@ == name {
            assert(lookup_resolved(s.push(e), name) == Some(res_view(e.1)));
        } else {
            assert(lookup_resolved(s.push(e), name) == lookup_resolved(
                s.push(e).drop_first(),
                name,
            ));
        }
    } else {
        assert(s.push(e)[0] == s[0]);
        assert(s[0].0@ != name);
        assert(s.push(e).drop_first() =~~= s.drop_first().push(e));
        lemma_lookup_resolved_push(s.drop_first(), e, name);
        assert(lookup_resolved(s.push(e), name) == lookup_resolved(
            s.drop_first().push(e),
            name,
        ));
    }
}

impl ResolvedInputs {
    pub closed spec fn entries_seq(&self) -> Seq<(String, Result<Vec<String>, String>)> {
        self.entries@
    }

    /// What the resolver answered for an input name, if it was asked.
    pub open spec fn spec_lookup(&self, name: Seq<char>) -> Option<
        Result<Seq<Seq<char>>, Seq<char>>,
    > {
        lookup_resolved(self.entries_seq(), name)
    }

    pub fn new() -> (r: Self)
        ensures
            r.entries_seq().len() == 0,
            forall|q: Seq<char>| r.spec_lookup(q) is None,
    {
        ResolvedInputs { entries: Vec::new() }
    }

    /// Record the resolver's answer for one input name.
    pub fn insert(&mut self, name: String, value: Result<Vec<String>, String>)
        requires
            old(self).spec_lookup(name@) is None,
        ensures
            forall|q: Seq<char>| #![auto] final(self).spec_lookup(q) == if q == name@ {
                Some(res_view(value))
            } else {
                old(self).spec_lookup(q)
            },
    {
        let ghost olds = self.entries@;
        let ghost gname = name@;
        let ghost gvalue = value;
        self.entries.push((name, value));
        proof {
            assert(self.entries@.last().0@ == gname && self.entries@.last().1 == gvalue);
            assert forall|q: Seq<char>| #![auto] self.spec_lookup(q) == if q == gname {
                Some(res_view(gvalue))
            } else {
                lookup_resolved(olds, q)
            } by {
                if lookup_resolved(olds, q) is None {
                    lemma_lookup_resolved_push(olds, self.entries@.last(), q);
                } else {
                    lemma_lookup_resolved_push_found(olds, self.entries@.last(), q);
                }
            }
        }
    }

    /// The recorded answer for `name`, if any.
    pub fn get(&self, name: &str) -> (r: Option<&Result<Vec<String>, String>>)
        ensures
            match r {
                Some(v) => self.spec_lookup(name@) == Some(res_view(*v)),
                None => self.spec_lookup(name@) is None,
            },
    {
        let n = self.entries.len();
        proof {
            assert(self.entries@.skip(0) =~~= self.entries@);
        }
        let mut i: usize = 0;
        while i < n
            invariant
                n == self.entries@.len(),
                i <= n,
                lookup_resolved(self.entries@.skip(i as int), name@) == lookup_resolved(
                    self.entries@,
                    name@,
                ),
            decreases n - i,
        {
            proof {
                assert(self.entries@.skip(i as int)[0] == self.entries@[i as int]);
                assert(self.entries@.skip(i as int).drop_first() =~~= self.entries@.skip(
                    i as int + 1,
                ));
            }
            if str_eq(self.entries[i].0.as_str(), name) {
                return Some(&self.entries[i].1);
            }
            i = i + 1;
        }
        proof {
            assert(self.entries@.skip(n as int) =~~= Seq::empty());
        }
        None
    }
}

proof fn lemma_lookup_resolved_push_found(
    s: Seq<(String, Result<Vec<String>, String>)>,
    e: (String, Result<Vec<String>, String>),
    name: Seq<char>,
)
    requires
        lookup_resolved(s, name) is Some,
    ensures
        lookup_resolved(s.push(e), name) == lookup_resolved(s, name),
    decreases s.len(),
{
    if s.len() > 0 {
        assert(s.push(e)[0] == s[0]);
        assert(s.push(e).drop_first() =~~= s.drop_first().push(e));
        if s[0].0@ != name {
            lemma_lookup_resolved_push_found(s.drop_first(), e, name);
        }
    }
}

/// The filters a filter set holds for `name`: none restricts the input when
/// the name is absent.
pub open spec fn pats_of(filters: &InputFilters, name: Seq<char>) -> Seq<Seq<char>> {
    match filters.spec_lookup(name) {
        Some(p) => p,
        None => Seq::empty(),
    }
}

/// What resolving and filtering one input name yields: the filtered path
/// list, or a failure when the name was never resolved or the resolver
/// reported an error for it.
pub open spec fn spec_get_filtered(
    resolved: &ResolvedInputs,
    filters: &InputFilters,
    root: Seq<char>,
    name: Seq<char>,
) -> Result<Seq<Seq<char>>, ()> {
    match resolved.spec_lookup(name) {
        None => Err(()),
        Some(Err(_)) => Err(()),
        Some(Ok(raw)) => Ok(spec_filtered(pats_of(filters, name), raw, root)),
    }
}

/// Resolve one input name and filter its paths for this action.
pub fn filtered_input(
    resolved: &ResolvedInputs,
    filters: &InputFilters,
    root: &str,
    name: &str,
) -> (r: Result<Vec<String>, String>)
    requires
        filters.wf(),
    ensures
        match r {
            Ok(v) => spec_get_filtered(resolved, filters, root@, name@) == Ok::<_, ()>(
                v.deep_view(),
            ),
            Err(_) => spec_get_filtered(resolved, filters, root@, name@) is Err,
        },
{
    match resolved.get(name) {
        None => Err(concat3("Failed to get inputs for '", name, "': input was not resolved")),
        Some(result) => match result {
            Err(e) => {
                let prefix = concat3("Failed to get inputs for '", name, "': ");
                Err(concat2(prefix.as_str(), e.as_str()))
            },
            Ok(raw) => Ok(filters.filtered(name, raw, root)),
        },
    }
}

// ---------------------------------------------------------------------------
// Composite token expansion: quoted joins and the cross product.
// ---------------------------------------------------------------------------

/// The values quoted and joined with single spaces.
pub open spec fn quoted_join(paths: Seq<Seq<char>>) -> Seq<char>
    decreases paths.len(),
{
    if paths.len() == 0 {
        Seq::empty()
    } else if paths.len() == 1 {
        shell_quoted(paths[0])
    } else {
        quoted_join(paths.drop_last()) + " "@ + shell_quoted(paths.last())
    }
}

/// One row of the cross product: `x` concatenated with each of `ys`.
pub open spec fn row_concat(x: Seq<char>, ys: Seq<Seq<char>>) -> Seq<Seq<char>>
    decreases ys.len(),
{
    if ys.len() == 0 {
        Seq::empty()
    } else {
        row_concat(x, ys.drop_last()).push(x + ys.last())
    }
}

/// The cross product of two value lists under concatenation, row by row:
/// every `xs[i] + ys[j]`, with `j` varying fastest.
pub open spec fn cross_concat(xs: Seq<Seq<char>>, ys: Seq<Seq<char>>) -> Seq<Seq<char>>
    decreases xs.len(),
{
    if xs.len() == 0 {
        Seq::empty()
    } else {
        cross_concat(xs.drop_last(), ys) + row_concat(xs.last(), ys)
    }
}

pub proof fn lemma_row_concat_index(x: Seq<char>, ys: Seq<Seq<char>>, j: int)
    requires
        0 <= j < ys.len(),
    ensures
        row_concat(x, ys).len() == ys.len(),
        row_concat(x, ys)[j] == x + ys[j],
    decreases ys.len(),
{
    if ys.len() > 0 {
        if j < ys.len() - 1 {
            lemma_row_concat_index(x, ys.drop_last(), j);
            assert(ys.drop_last()[j] == ys[j]);
        } else {
            if ys.len() > 1 {
                lemma_row_concat_index(x, ys.drop_last(), 0);
            }
        }
        assert(row_concat(x, ys).len() == ys.len()) by {
            lemma_row_concat_len(x, ys);
        }
    }
}

pub proof fn lemma_row_concat_len(x: Seq<char>, ys: Seq<Seq<char>>)
    ensures
        row_concat(x, ys).len() == ys.len(),
    decreases ys.len(),
{
    if ys.len() > 0 {
        lemma_row_concat_len(x, ys.drop_last());
    }
}

pub proof fn lemma_cross_concat_len(xs: Seq<Seq<char>>, ys: Seq<Seq<char>>)
    ensures
        cross_concat(xs, ys).len() == xs.len() * ys.len(),
    decreases xs.len(),
{
    if xs.len() > 0 {
        lemma_cross_concat_len(xs.drop_last(), ys);
        lemma_row_concat_len(xs.last(), ys);
        assert((xs.len() - 1) * ys.len() + ys.len() == xs.len() * ys.len()) by (nonlinear_arith);
    }
}

/// The cross product enumerates every combination exactly once, in row-major
/// order: entry `i * |ys| + j` concatenates `xs[i]` with `ys[j]`, so the
/// right-hand list varies fastest.
pub proof fn lemma_cross_concat_index(xs: Seq<Seq<char>>, ys: Seq<Seq<char>>, i: int, j: int)
    requires
        0 <= i < xs.len(),
        0 <= j < ys.len(),
    ensures
        cross_concat(xs, ys).len() == xs.len() * ys.len(),
        cross_concat(xs, ys)[i * ys.len() + j] == xs[i] + ys[j],
    decreases xs.len(),
{
    lemma_cross_concat_len(xs, ys);
    lemma_row_concat_len(xs.last(), ys);
    if i == xs.len() - 1 {
        lemma_cross_concat_len(xs.drop_last(), ys);
        lemma_row_concat_index(xs.last(), ys, j);
        assert(i * ys.len() + j - (xs.len() - 1) * ys.len() == j) by (nonlinear_arith)
            requires
                i == xs.len() - 1,
        ;
        assert(cross_concat(xs, ys)[i * ys.len() + j] == row_concat(xs.last(), ys)[j]);
    } else {
        lemma_cross_concat_index(xs.drop_last(), ys, i, j);
        lemma_cross_concat_len(xs.drop_last(), ys);
        assert(0 <= i * ys.len() + j < (xs.len() - 1) * ys.len()) by (nonlinear_arith)
            requires
                0 <= i < xs.len() - 1,
                0 <= j < ys.len(),
        ;
        assert(cross_concat(xs, ys)[i * ys.len() + j] == cross_concat(xs.drop_last(), ys)[i
            * ys.len() + j]);
        assert(xs.drop_last()[i] == xs[i]);
    }
}

// ---------------------------------------------------------------------------
// Expanding one argv token against the resolved inputs.
// ---------------------------------------------------------------------------

/// One composite-token step: extend every candidate string with a literal
/// part, with the joined array value, or with the cross product of a scalar
/// placeholder's values. `Ok(None)` marks an input with no matching files.
pub open spec fn spec_expand_step(
    ext: Seq<Seq<char>>,
    part: Seq<char>,
    resolved: &ResolvedInputs,
    filters: &InputFilters,
    root: Seq<char>,
) -> Result<Option<Seq<Seq<char>>>, ()> {
    match spec_placeholder(part) {
        None => Ok(Some(Seq::new(ext.len(), |k: int| ext[k] + part))),
        Some((name, is_array)) => match spec_get_filtered(resolved, filters, root, name) {
            Err(_) => Err(()),
            Ok(paths) => if paths.len() == 0 {
                Ok(None)
            } else if is_array {
                Ok(Some(Seq::new(ext.len(), |k: int| ext[k] + quoted_join(paths))))
            } else {
                Ok(Some(cross_concat(ext, Seq::new(paths.len(), |k: int| shell_quoted(paths[k])))))
            },
        },
    }
}

/// The composite expansion after the first `i` parts.
pub open spec fn spec_expand_run(
    parts: Seq<Seq<char>>,
    i: int,
    resolved: &ResolvedInputs,
    filters: &InputFilters,
    root: Seq<char>,
) -> Result<Option<Seq<Seq<char>>>, ()>
    decreases i,
{
    if i <= 0 {
        Ok(Some(seq![Seq::<char>::empty()]))
    } else {
        match spec_expand_run(parts, i - 1, resolved, filters, root) {
            Err(e) => Err(e),
            Ok(None) => Ok(None),
            Ok(Some(ext)) => spec_expand_step(ext, parts[i - 1], resolved, filters, root),
        }
    }
}

/// Once a composite expansion failed or found an empty input, further parts
/// leave that outcome as it stands.
proof fn lemma_expand_run_stuck(
    parts: Seq<Seq<char>>,
    i: int,
    j: int,
    resolved: &ResolvedInputs,
    filters: &InputFilters,
    root: Seq<char>,
)
    requires
        0 <= i <= j,
        !(spec_expand_run(parts, i, resolved, filters, root) matches Ok(Some(_))),
    ensures
        spec_expand_run(parts, j, resolved, filters, root) == spec_expand_run(
            parts,
            i,
            resolved,
            filters,
            root,
        ),
    decreases j - i,
{
    if j > i {
        lemma_expand_run_stuck(parts, i, j - 1, resolved, filters, root);
    }
}

/// What expanding one argv token yields: the value lists of the argument
/// positions it contributes. `Ok(None)` marks a referenced input with no
/// matching files: the action is not applicable. A token that is one scalar
/// placeholder binds its filtered paths as one iterated position; one array
/// placeholder contributes one fixed position per path; any mix is quoted
/// and concatenated into a single position.
pub open spec fn spec_parse_arg(
    arg: Seq<char>,
    resolved: &ResolvedInputs,
    filters: &InputFilters,
    root: Seq<char>,
) -> Result<Option<Seq<Seq<Seq<char>>>>, ()> {
    let parts = spec_split_arg(arg);
    if parts.len() == 1 {
        match spec_placeholder(parts[0]) {
            Some((name, is_array)) => match spec_get_filtered(resolved, filters, root, name) {
                Err(_) => Err(()),
                Ok(paths) => if paths.len() == 0 {
                    Ok(None)
                } else if is_array {
                    Ok(Some(Seq::new(paths.len(), |k: int| seq![paths[k]])))
                } else {
                    Ok(Some(seq![paths]))
                },
            },
            None => Ok(Some(seq![seq![parts[0]]])),
        }
    } else {
        match spec_expand_run(parts, parts.len() as int, resolved, filters, root) {
            Err(_) => Err(()),
            Ok(None) => Ok(None),
            Ok(Some(ext)) => Ok(Some(seq![ext])),
        }
    }
}

/// The value lists of a sequence of argument positions.
pub open spec fn arg_models(s: Seq<Arg>) -> Seq<Seq<Seq<char>>> {
    Seq::new(s.len(), |k: int| s[k].spec_values())
}

/// Every position well-formed, with its cursor at the start.
pub open spec fn args_fresh(s: Seq<Arg>) -> bool {
    forall|k: int| 0 <= k < s.len() ==> (#[trigger] s[k]).wf() && s[k].spec_pos() == 0
}

/// Expand one argv token (any token but argv[0]) against the resolved
/// inputs.
pub fn parse_arg(
    arg: &str,
    resolved: &ResolvedInputs,
    filters: &InputFilters,
    root: &str,
) -> (r: Result<Option<Vec<Arg>>, String>)
    requires
        filters.wf(),
    ensures
        match r {
            Ok(Some(v)) => {
                &&& spec_parse_arg(arg@, resolved, filters, root@) matches Ok(Some(m)) && m
                    == arg_models(v@)
                &&& args_fresh(v@)
            },
            Ok(None) => spec_parse_arg(arg@, resolved, filters, root@) == Ok::<_, ()>(
                None::<Seq<Seq<Seq<char>>>>,
            ),
            Err(_) => spec_parse_arg(arg@, resolved, filters, root@) is Err,
        },
{
    let parts = split_arg(arg);
    if parts.len() == 1 {
        match parse_placeholder(parts[0].as_str()) {
            Some((name, is_array)) => {
                proof {
                    assert(parts.deep_view()[0] == parts@[0]@);
                }
                let paths = match filtered_input(resolved, filters, root, name.as_str()) {
                    Ok(p) => p,
                    Err(e) => {
                        return Err(e);
                    },
                };
                if paths.len() == 0 {
                    return Ok(None);
                }
                if is_array {
                    let mut v: Vec<Arg> = Vec::new();
                    let m = paths.len();
                    let mut k: usize = 0;
                    while k < m
                        invariant
                            m == paths@.len(),
                            k <= m,
                            v@.len() == k,
                            args_fresh(v@),
                            forall|q: int| 0 <= q < k ==> (#[trigger] v@[q]).spec_values()
                                =~~= seq![paths.deep_view()[q]],
                        decreases m - k,
                    {
                        let mut one: Vec<String> = Vec::new();
                        one.push(paths[k].clone());
                        proof {
                            assert(one.deep_view() =~~= seq![paths.deep_view()[k as int]]);
                        }
                        v.push(Arg::new(one));
                        k = k + 1;
                    }
                    proof {
                        assert(arg_models(v@) =~~= Seq::new(
                            paths.deep_view().len(),
                            |q: int| seq![paths.deep_view()[q]],
                        ));
                    }
                    Ok(Some(v))
                } else {
                    let mut v: Vec<Arg> = Vec::new();
                    v.push(Arg::new(paths));
                    proof {
                        assert(arg_models(v@) =~~= seq![v@[0].spec_values()]);
                    }
                    Ok(Some(v))
                }
            },
            None => {
                let mut one: Vec<String> = Vec::new();
                one.push(parts[0].clone());
                proof {
                    assert(one.deep_view() =~~= seq![parts.deep_view()[0]]);
                }
                let mut v: Vec<Arg> = Vec::new();
                v.push(Arg::new(one));
                proof {
                    assert(arg_models(v@) =~~= seq![seq![parts.deep_view()[0]]]);
                }
                Ok(Some(v))
            },
        }
    } else {
        let ghost gparts = parts.deep_view();
        let n = parts.len();
        let mut extended: Vec<String> = Vec::new();
        extended.push(String::new());
        proof {
            assert(extended.deep_view() =~~= seq![Seq::<char>::empty()]);
        }
        let mut i: usize = 0;
        while i < n
            invariant
                filters.wf(),
                n == parts@.len(),
                n != 1,
                gparts == parts.deep_view(),
                gparts == spec_split_arg(arg@),
                i <= n,
                extended@.len() > 0,
                spec_expand_run(gparts, i as int, resolved, filters, root@) == Ok::<_, ()>(
                    Some(extended.deep_view()),
                ),
            decreases n - i,
        {
            proof {
                assert(gparts[i as int] == parts@[i as int]@);
            }
            match parse_placeholder(parts[i].as_str()) {
                Some((name, is_array)) => {
                    let paths = match filtered_input(resolved, filters, root, name.as_str()) {
                        Ok(p) => p,
                        Err(e) => {
                            proof {
                                assert(spec_placeholder(gparts[i as int]) == Some((
                                    name@,
                                    is_array,
                                )));
                                assert(spec_get_filtered(resolved, filters, root@, name@) is Err);
                                assert(spec_expand_step(
                                    extended.deep_view(),
                                    gparts[i as int],
                                    resolved,
                                    filters,
                                    root@,
                                ) is Err);
                                assert(spec_expand_run(
                                    gparts,
                                    i as int + 1,
                                    resolved,
                                    filters,
                                    root@,
                                ) is Err);
                                lemma_expand_run_stuck(
                                    gparts,
                                    i as int + 1,
                                    gparts.len() as int,
                                    resolved,
                                    filters,
                                    root@,
                                );
                                assert(spec_parse_arg(arg@, resolved, filters, root@) is Err);
                            }
                            return Err(e);
                        },
                    };
                    if paths.len() == 0 {
                        proof {
                            assert(spec_placeholder(gparts[i as int]) == Some((name@, is_array)));
                            assert(spec_get_filtered(resolved, filters, root@, name@) == Ok::<
                                _,
                                (),
                            >(paths.deep_view()));
                            assert(paths.deep_view().len() == 0);
                            assert(spec_expand_step(
                                extended.deep_view(),
                                gparts[i as int],
                                resolved,
                                filters,
                                root@,
                            ) == Ok::<_, ()>(None::<Seq<Seq<char>>>));
                            assert(spec_expand_run(
                                gparts,
                                i as int + 1,
                                resolved,
                                filters,
                                root@,
                            ) == Ok::<_, ()>(None::<Seq<Seq<char>>>));
                            lemma_expand_run_stuck(
                                gparts,
                                i as int + 1,
                                gparts.len() as int,
                                resolved,
                                filters,
                                root@,
                            );
                            assert(spec_parse_arg(arg@, resolved, filters, root@) == Ok::<_, ()>(
                                None::<Seq<Seq<Seq<char>>>>,
                            ));
                        }
                        return Ok(None);
                    }
                    if is_array {
                        // The whole value list, quoted and joined, appended to
                        // every candidate.
                        let total = join_quoted(&paths);
                        let mut next: Vec<String> = Vec::new();
                        let m = extended.len();
                        let mut k: usize = 0;
                        while k < m
                            invariant
                                m == extended@.len(),
                                k <= m,
                                total@ == quoted_join(paths.deep_view()),
                                next@.len() == k,
                                forall|q: int| 0 <= q < k ==> #[trigger] next@[q]@ == extended@[q]@
                                    + total@,
                            decreases m - k,
                        {
                            next.push(concat2(extended[k].as_str(), total.as_str()));
                            proof {
                                assert(next@[k as int]@ == extended@[k as int]@ + total@);
                            }
                            k = k + 1;
                        }
                        proof {
                            assert(next.deep_view() =~~= Seq::new(
                                extended.deep_view().len(),
                                |q: int| extended.deep_view()[q] + quoted_join(paths.deep_view()),
                            ));
                        }
                        extended = next;
                    } else {
                        // Cross product: each candidate extended with each
                        // quoted path, the paths varying fastest.
                        let ghost qpaths = Seq::new(
                            paths.deep_view().len(),
                            |q: int| shell_quoted(paths.deep_view()[q]),
                        );
                        let mut next: Vec<String> = Vec::new();
                        let ghost mut gnext: Seq<Seq<char>> = Seq::empty();
                        let m = extended.len();
                        let pl = paths.len();
                        let mut a: usize = 0;
                        while a < m
                            invariant
                                m == extended@.len(),
                                pl == paths@.len(),
                                a <= m,
                                qpaths == Seq::new(
                                    paths.deep_view().len(),
                                    |q: int| shell_quoted(paths.deep_view()[q]),
                                ),
                                next@.len() == gnext.len(),
                                forall|q: int| 0 <= q < gnext.len() ==> #[trigger] next@[q]@
                                    == gnext[q],
                                gnext =~~= cross_concat(
                                    extended.deep_view().subrange(0, a as int),
                                    qpaths,
                                ),
                            decreases m - a,
                        {
                            let mut p: usize = 0;
                            while p < pl
                                invariant
                                    m == extended@.len(),
                                    pl == paths@.len(),
                                    a < m,
                                    p <= pl,
                                    qpaths == Seq::new(
                                        paths.deep_view().len(),
                                        |q: int| shell_quoted(paths.deep_view()[q]),
                                    ),
                                    next@.len() == gnext.len(),
                                    forall|q: int| 0 <= q < gnext.len() ==> #[trigger] next@[q]@
                                        == gnext[q],
                                    gnext =~~= cross_concat(
                                        extended.deep_view().subrange(0, a as int),
                                        qpaths,
                                    ) + row_concat(
                                        extended.deep_view()[a as int],
                                        qpaths.subrange(0, p as int),
                                    ),
                                decreases pl - p,
                            {
                                let quoted = quote_value(paths[p].as_str());
                                next.push(concat2(extended[a].as_str(), quoted.as_str()));
                                proof {
                                    let x = extended.deep_view()[a as int];
                                    gnext = gnext.push(x + qpaths[p as int]);
                                    assert(next@[next@.len() - 1]@ == x + qpaths[p as int]);
                                    assert(qpaths.subrange(0, p as int + 1).drop_last()
                                        =~~= qpaths.subrange(0, p as int));
                                    assert(qpaths.subrange(0, p as int + 1).last() == qpaths[p as int]);
                                    assert(row_concat(x, qpaths.subrange(0, p as int + 1))
                                        == row_concat(x, qpaths.subrange(0, p as int)).push(
                                        x + qpaths[p as int],
                                    ));
                                    assert(gnext =~~= cross_concat(
                                        extended.deep_view().subrange(0, a as int),
                                        qpaths,
                                    ) + row_concat(
                                        extended.deep_view()[a as int],
                                        qpaths.subrange(0, p as int + 1),
                                    ));
                                }
                                p = p + 1;
                            }
                            proof {
                                assert(qpaths.subrange(0, pl as int) =~~= qpaths);
                                assert(extended.deep_view().subrange(0, a as int + 1).drop_last()
                                    =~~= extended.deep_view().subrange(0, a as int));
                                assert(extended.deep_view().subrange(0, a as int + 1).last()
                                    == extended.deep_view()[a as int]);
                                assert(gnext =~~= cross_concat(
                                    extended.deep_view().subrange(0, a as int + 1),
                                    qpaths,
                                ));
                            }
                            a = a + 1;
                        }
                        proof {
                            assert(extended.deep_view().subrange(0, m as int) =~~= extended.deep_view());
                            assert(next.deep_view() =~~= gnext);
                            lemma_cross_concat_len(extended.deep_view(), qpaths);
                            assert(next.deep_view().len() > 0) by (nonlinear_arith)
                                requires
                                    next.deep_view().len() == extended.deep_view().len()
                                        * qpaths.len(),
                                    extended.deep_view().len() > 0,
                                    qpaths.len() > 0,
                            ;
                        }
                        extended = next;
                    }
                },
                None => {
                    let mut next: Vec<String> = Vec::new();
                    let m = extended.len();
                    let mut k: usize = 0;
                    while k < m
                        invariant
                            m == extended@.len(),
                            k <= m,
                            i < n == parts@.len(),
                            gparts == parts.deep_view(),
                            next@.len() == k,
                            forall|q: int| 0 <= q < k ==> #[trigger] next@[q]@ == extended@[q]@
                                + gparts[i as int],
                        decreases m - k,
                    {
                        next.push(concat2(extended[k].as_str(), parts[i].as_str()));
                        proof {
                            assert(next@[k as int]@ == extended@[k as int]@ + gparts[i as int]);
                        }
                        k = k + 1;
                    }
                    proof {
                        assert(next.deep_view() =~~= Seq::new(
                            extended.deep_view().len(),
                            |q: int| extended.deep_view()[q] + gparts[i as int],
                        ));
                    }
                    extended = next;
                },
            }
            i = i + 1;
        }
        let mut v: Vec<Arg> = Vec::new();
        v.push(Arg::new(extended));
        proof {
            assert(arg_models(v@) =~~= seq![v@[0].spec_values()]);
        }
        Ok(Some(v))
    }
}

/// Quote each value and join them with single spaces.
fn join_quoted(paths: &Vec<String>) -> (r: String)
    ensures
        r@ == quoted_join(paths.deep_view()),
{
    let n = paths.len();
    let mut r = String::new();
    let mut i: usize = 0;
    while i < n
        invariant
            n == paths@.len(),
            i <= n,
            r@ == quoted_join(paths.deep_view().subrange(0, i as int)),
        decreases n - i,
    {
        let q = quote_value(paths[i].as_str());
        if i == 0 {
            r = q;
        } else {
            let joined = concat3(r.as_str(), " ", q.as_str());
            r = joined;
        }
        proof {
            assert(paths.deep_view().subrange(0, i as int + 1).drop_last() =~~= paths.deep_view()
                .subrange(0, i as int));
            assert(paths.deep_view().subrange(0, i as int + 1).last() == paths.deep_view()[i as int]);
        }
        i = i + 1;
    }
    proof {
        assert(paths.deep_view().subrange(0, n as int) =~~= paths.deep_view());
    }
    r
}

/// What expanding a whole command (beyond its executable) yields: the
/// ordered argument positions of the invocation loop, or `Ok(None)` when a
/// referenced input has no matching files.
pub open spec fn spec_parse_args_run(
    cmd: Seq<Seq<char>>,
    i: int,
    resolved: &ResolvedInputs,
    filters: &InputFilters,
    root: Seq<char>,
) -> Result<Option<Seq<Seq<Seq<char>>>>, ()>
    decreases i,
{
    if i <= 1 {
        Ok(Some(Seq::empty()))
    } else {
        match spec_parse_args_run(cmd, i - 1, resolved, filters, root) {
            Err(e) => Err(e),
            Ok(None) => Ok(None),
            Ok(Some(acc)) => match spec_parse_arg(cmd[i - 1], resolved, filters, root) {
                Err(e) => Err(e),
                Ok(None) => Ok(None),
                Ok(Some(models)) => Ok(Some(acc + models)),
            },
        }
    }
}

pub open spec fn spec_parse_args(
    cmd: Seq<Seq<char>>,
    resolved: &ResolvedInputs,
    filters: &InputFilters,
    root: Seq<char>,
) -> Result<Option<Seq<Seq<Seq<char>>>>, ()> {
    spec_parse_args_run(cmd, cmd.len() as int, resolved, filters, root)
}

/// Once a command expansion failed or found an empty input, further tokens
/// leave that outcome as it stands.
proof fn lemma_parse_args_run_stuck(
    cmd: Seq<Seq<char>>,
    i: int,
    j: int,
    resolved: &ResolvedInputs,
    filters: &InputFilters,
    root: Seq<char>,
)
    requires
        1 <= i <= j,
        !(spec_parse_args_run(cmd, i, resolved, filters, root) matches Ok(Some(_))),
    ensures
        spec_parse_args_run(cmd, j, resolved, filters, root) == spec_parse_args_run(
            cmd,
            i,
            resolved,
            filters,
            root,
        ),
    decreases j - i,
{
    if j > i {
        lemma_parse_args_run_stuck(cmd, i, j - 1, resolved, filters, root);
    }
}

/// Expand every argv token after the executable into the invocation loop's
/// argument schedule. `Ok(None)` means a referenced input had no matching
/// files: the action is not applicable.
pub fn parse_args(
    command: &Vec<String>,
    resolved: &ResolvedInputs,
    filters: &InputFilters,
    root: &str,
) -> (r: Result<Option<Args>, String>)
    requires
        filters.wf(),
    ensures
        match r {
            Ok(Some(a)) => {
                &&& spec_parse_args(command.deep_view(), resolved, filters, root@) matches Ok(
                    Some(m),
                ) && m == arg_models(a.spec_args())
                &&& a.wf()
                &&& args_fresh(a.spec_args())
            },
            Ok(None) => spec_parse_args(command.deep_view(), resolved, filters, root@) == Ok::<
                _,
                (),
            >(None::<Seq<Seq<Seq<char>>>>),
            Err(_) => spec_parse_args(command.deep_view(), resolved, filters, root@) is Err,
        },
{
    let ghost gcmd = command.deep_view();
    let n = command.len();
    let mut parsed: Vec<Arg> = Vec::new();
    proof {
        assert(arg_models(parsed@) =~~= Seq::<Seq<Seq<char>>>::empty());
    }
    if n == 0 {
        let a = Args::new(parsed);
        proof {
            assert(arg_models(a.spec_args()) =~~= Seq::<Seq<Seq<char>>>::empty());
        }
        return Ok(Some(a));
    }
    let mut i: usize = 1;
    while i < n
        invariant
            filters.wf(),
            n == command@.len(),
            gcmd == command.deep_view(),
            1 <= i <= n,
            args_fresh(parsed@),
            spec_parse_args_run(gcmd, i as int, resolved, filters, root@) == Ok::<_, ()>(
                Some(arg_models(parsed@)),
            ),
        decreases n - i,
    {
        proof {
            assert(gcmd[i as int] == command@[i as int]@);
        }
        match parse_arg(command[i].as_str(), resolved, filters, root) {
            Err(e) => {
                proof {
                    lemma_parse_args_run_stuck(
                        gcmd,
                        i as int + 1,
                        gcmd.len() as int,
                        resolved,
                        filters,
                        root@,
                    );
                }
                return Err(e);
            },
            Ok(None) => {
                proof {
                    lemma_parse_args_run_stuck(
                        gcmd,
                        i as int + 1,
                        gcmd.len() as int,
                        resolved,
                        filters,
                        root@,
                    );
                }
                return Ok(None);
            },
            Ok(Some(mut v)) => {
                let ghost before = parsed@;
                let ghost vv = v@;
                parsed.append(&mut v);
                proof {
                    assert(parsed@ =~~= before + vv);
                    assert(arg_models(parsed@) =~~= arg_models(before) + arg_models(vv));
                }
            },
        }
        i = i + 1;
    }
    let a = Args::new(parsed);
    Ok(Some(a))
}

/// The positions after one odometer step: the last argument's cursor is
/// bumped; a wrap carries into the argument before it. The flag is set when
/// every cursor wrapped, i.e. the schedule returned to its start.
pub open spec fn spec_odometer_step(vals: Seq<Seq<Seq<char>>>, pos: Seq<int>) -> (Seq<int>, bool)
    decreases vals.len(),
{
    if vals.len() == 0 {
        (pos, true)
    } else if pos.last() + 1 < vals.last().len() {
        (pos.update(pos.len() - 1, pos.last() + 1), false)
    } else {
        let prev = spec_odometer_step(vals.drop_last(), pos.drop_last());
        (prev.0.push(0), prev.1)
    }
}

/// The odometer reports exhaustion exactly when every cursor stood on its
/// last value, i.e. when the step returns the schedule to its start.
pub proof fn lemma_odometer_wraps(vals: Seq<Seq<Seq<char>>>, pos: Seq<int>)
    requires
        pos.len() == vals.len(),
    ensures
        spec_odometer_step(vals, pos).1 <==> forall|k: int|
            0 <= k < vals.len() ==> pos[k] + 1 >= vals[k].len(),
    decreases vals.len(),
{
    if vals.len() > 0 {
        lemma_odometer_wraps(vals.drop_last(), pos.drop_last());
        if pos.last() + 1 < vals.last().len() {
        } else {
            assert forall|k: int|
                0 <= k < vals.len() && spec_odometer_step(vals, pos).1 implies pos[k] + 1
                >= vals[k].len() by {
                if k < vals.len() - 1 {
                    assert(vals.drop_last()[k] == vals[k] && pos.drop_last()[k] == pos[k]);
                }
            }
            if forall|k: int| 0 <= k < vals.len() ==> pos[k] + 1 >= vals[k].len() {
                assert forall|k: int|
                    0 <= k < vals.drop_last().len() implies pos.drop_last()[k] + 1
                    >= vals.drop_last()[k].len() by {
                    assert(vals.drop_last()[k] == vals[k] && pos.drop_last()[k] == pos[k]);
                }
            }
        }
    }
}

/// The ordered argument list of one action invocation loop: a mixed-radix
/// odometer over the candidate values of each position.
#[derive(Clone, Debug)]
pub struct Args {
    args: Vec<Arg>,
}

impl Args {
    pub closed spec fn spec_args(&self) -> Seq<Arg> {
        self.args@
    }

    pub open spec fn spec_values(&self) -> Seq<Seq<Seq<char>>> {
        Seq::new(self.spec_args().len(), |k: int| self.spec_args()[k].spec_values())
    }

    pub open spec fn spec_positions(&self) -> Seq<int> {
        Seq::new(self.spec_args().len(), |k: int| self.spec_args()[k].spec_pos())
    }

    pub open spec fn wf(&self) -> bool {
        forall|k: int| 0 <= k < self.spec_args().len() ==> (#[trigger] self.spec_args()[k]).wf()
    }

    /// The currently selected value of each position.
    pub open spec fn spec_current(&self) -> Seq<Seq<char>> {
        Seq::new(self.spec_args().len(), |k: int| self.spec_values()[k][self.spec_positions()[k]])
    }

    pub fn new(args: Vec<Arg>) -> (r: Args)
        requires
            forall|k: int| 0 <= k < args@.len() ==> (#[trigger] args@[k]).wf(),
        ensures
            r.spec_args() == args@,
            r.wf(),
    {
        Args { args }
    }

    pub fn len(&self) -> (r: usize)
        ensures
            r == self.spec_args().len(),
    {
        self.args.len()
    }

    /// One odometer step over all positions; `true` once every position has
    /// wrapped, i.e. the schedule is exhausted.
    pub fn increment(&mut self) -> (wrapped: bool)
        requires
            old(self).wf(),
        ensures
            final(self).wf(),
            final(self).spec_values() == old(self).spec_values(),
            (final(self).spec_positions(), wrapped) == spec_odometer_step(
                old(self).spec_values(),
                old(self).spec_positions(),
            ),
    {
        let n = self.args.len();
        let ghost ovals = old(self).spec_values();
        let ghost opos = old(self).spec_positions();
        proof {
            assert(ovals.subrange(0, n as int) =~~= ovals);
            assert(opos.subrange(0, n as int) =~~= opos);
            assert(spec_odometer_step(ovals, opos).0 + Seq::new(0nat, |j: int| 0int)
                =~~= spec_odometer_step(ovals, opos).0);
        }
        let mut k: usize = n;
        while k > 0
            invariant
                self.wf(),
                n == self.spec_args().len(),
                k <= n,
                ovals == old(self).spec_values(),
                opos == old(self).spec_positions(),
                self.spec_values() =~~= ovals,
                // positions before k are untouched; positions from k on have
                // wrapped to 0
                forall|j: int| 0 <= j < k ==> self.spec_positions()[j] == opos[j],
                forall|j: int| k <= j < n ==> self.spec_positions()[j] == 0,
                spec_odometer_step(ovals, opos).0 =~~= spec_odometer_step(
                    ovals.subrange(0, k as int),
                    opos.subrange(0, k as int),
                ).0 + Seq::new((n - k) as nat, |j: int| 0int),
                spec_odometer_step(ovals, opos).1 == spec_odometer_step(
                    ovals.subrange(0, k as int),
                    opos.subrange(0, k as int),
                ).1,
            decreases k,
        {
            let idx = k - 1;
            let ghost before_args = self.spec_args();
            let ghost before_pos = self.spec_positions();
            let wrapped = self.args[idx].increment();
            proof {
                assert(self.spec_args() =~~= before_args.update(
                    idx as int,
                    self.spec_args()[idx as int],
                ));
                assert(self.spec_values() =~~= ovals);
                assert forall|j: int| 0 <= j < n && j != idx as int implies self.spec_positions()[j]
                    == before_pos[j] by {
                    assert(self.spec_args()[j] == before_args[j]);
                }
                // Peel the last position off the prefix odometer.
                let pk = opos.subrange(0, k as int);
                let vk = ovals.subrange(0, k as int);
                assert(pk.last() == opos[idx as int]);
                assert(vk.last() == ovals[idx as int]);
                assert(pk.drop_last() =~~= opos.subrange(0, idx as int));
                assert(vk.drop_last() =~~= ovals.subrange(0, idx as int));
                assert(before_pos[idx as int] == opos[idx as int]);
                assert(ovals[idx as int].len() == before_args[idx as int].spec_values().len());
            }
            if !wrapped {
                proof {
                    let pk = opos.subrange(0, k as int);
                    let vk = ovals.subrange(0, k as int);
                    assert(spec_odometer_step(vk, pk).0 =~~= pk.update(
                        idx as int,
                        opos[idx as int] + 1,
                    ));
                    assert(!spec_odometer_step(vk, pk).1);
                    assert(self.spec_positions()[idx as int] == opos[idx as int] + 1);
                    let st = spec_odometer_step(ovals, opos).0;
                    assert(st.len() == n);
                    assert forall|j: int| 0 <= j < n implies self.spec_positions()[j] == st[j] by {
                        if j < idx as int {
                            assert(self.spec_positions()[j] == before_pos[j]);
                            assert(st[j] == pk[j]);
                        } else if j == idx as int {
                            assert(st[j] == opos[idx as int] + 1);
                        } else {
                            assert(self.spec_positions()[j] == before_pos[j]);
                            assert(st[j] == 0);
                        }
                    }
                    assert(self.spec_positions() =~~= st);
                    assert(!spec_odometer_step(ovals, opos).1);
                }
                return false;
            }
            proof {
                let pk = opos.subrange(0, k as int);
                let vk = ovals.subrange(0, k as int);
                assert(spec_odometer_step(vk, pk).0 =~~= spec_odometer_step(
                    vk.drop_last(),
                    pk.drop_last(),
                ).0.push(0));
                assert(self.spec_positions()[idx as int] == 0);
                assert forall|j: int| idx as int <= j < n implies self.spec_positions()[j]
                    == 0 by {
                    if j != idx as int {
                        assert(self.spec_positions()[j] == before_pos[j]);
                    }
                }
                assert(spec_odometer_step(ovals, opos).0 =~~= spec_odometer_step(
                    ovals.subrange(0, idx as int),
                    opos.subrange(0, idx as int),
                ).0 + Seq::new((n - idx) as nat, |j: int| 0int));
            }
            k = idx;
        }
        proof {
            assert(opos.subrange(0, 0) =~~= Seq::<int>::empty());
            assert(ovals.subrange(0, 0) =~~= Seq::<Seq<Seq<char>>>::empty());
            assert(spec_odometer_step(ovals, opos).0 =~~= self.spec_positions());
            assert(spec_odometer_step(ovals, opos).1);
        }
        true
    }

    /// The currently selected value of each argument position, in order.
    pub fn current_values(&self) -> (r: Vec<String>)
        requires
            self.wf(),
        ensures
            r.deep_view() == self.spec_current(),
    {
        let n = self.args.len();
        let mut r: Vec<String> = Vec::new();
        let mut i: usize = 0;
        while i < n
            invariant
                self.wf(),
                n == self.spec_args().len(),
                i <= n,
                r@.len() == i,
                forall|j: int| 0 <= j < i ==> r@[j]@ == self.spec_current()[j],
            decreases n - i,
        {
            let v = self.args[i].current().clone();
            proof {
                assert(v@ == self.spec_current()[i as int]);
            }
            r.push(v);
            i = i + 1;
        }
        proof {
            assert(r.deep_view() =~~= self.spec_current());
        }
        r
    }
}

} // verus!
