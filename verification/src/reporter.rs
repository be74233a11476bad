//! Rendering action results as plain text, and a reporter that collects the
//! rendered lines. The terminal colors and status-line redrawing stay with
//! the application, which formats around these strings.

use vstd::prelude::*;

use crate::actions::ActionResult;
use crate::strutil::concat2;
use crate::strutil::concat3;
use crate::strutil::lossy_utf8;
use crate::strutil::str_eq;

verus! {

pub open spec fn is_ascii_ws(c: char) -> bool {
    c == ' ' || c == '\t' || c == '\n' || c == '\r'
}

pub open spec fn spec_trim_front(s: Seq<char>) -> Seq<char>
    decreases s.len(),
{
    if s.len() > 0 && is_ascii_ws(s[0]) {
        spec_trim_front(s.drop_first())
    } else {
        s
    }
}

pub open spec fn spec_trim_back(s: Seq<char>) -> Seq<char>
    decreases s.len(),
{
    if s.len() > 0 && is_ascii_ws(s.last()) {
        spec_trim_back(s.drop_last())
    } else {
        s
    }
}

/// The string without leading and trailing whitespace.
pub open spec fn spec_trim(s: Seq<char>) -> Seq<char> {
    spec_trim_back(spec_trim_front(s))
}

proof fn lemma_trim_front_skip(s: Seq<char>, k: int)
    requires
        0 <= k <= s.len(),
        forall|j: int| 0 <= j < k ==> is_ascii_ws(s[j]),
        k == s.len() || !is_ascii_ws(s[k]),
    ensures
        spec_trim_front(s) == s.skip(k),
    decreases k,
{
    if k == 0 {
        assert(s.skip(0) =~= s);
    } else {
        assert(is_ascii_ws(s[0]));
        assert(s.drop_first() =~= s.skip(1));
        lemma_trim_front_skip(s.drop_first(), k - 1);
        assert(s.drop_first().skip(k - 1) =~= s.skip(k));
    }
}

proof fn lemma_trim_back_take(s: Seq<char>, k: int)
    requires
        0 <= k <= s.len(),
        forall|j: int| k <= j < s.len() ==> is_ascii_ws(s[j]),
        k == 0 || !is_ascii_ws(s[k - 1]),
    ensures
        spec_trim_back(s) == s.take(k),
    decreases s.len() - k,
{
    if k == s.len() {
        assert(s.take(k) =~= s);
    } else {
        assert(is_ascii_ws(s.last()));
        assert(s.drop_last() =~= s.take(s.len() - 1));
        lemma_trim_back_take(s.drop_last(), k);
        assert(s.drop_last().take(k) =~= s.take(k));
    }
}

/// Trim leading and trailing ASCII whitespace.
pub fn trim_ws(s: &str) -> (r: &str)
    ensures
        r@ == spec_trim(s@),
{
    let n = s.unicode_len();
    let mut start: usize = 0;
    while start < n
        invariant
            n == s@.len(),
            start <= n,
            forall|j: int| 0 <= j < start ==> is_ascii_ws(s@[j]),
        ensures
            start <= n,
            forall|j: int| 0 <= j < start ==> is_ascii_ws(s@[j]),
            start == n || !is_ascii_ws(s@[start as int]),
        decreases n - start,
    {
        let c = s.get_char(start);
        if !(c == ' ' || c == '\t' || c == '\n' || c == '\r') {
            break;
        }
        start = start + 1;
    }
    proof {
        lemma_trim_front_skip(s@, start as int);
    }
    let mut end: usize = n;
    while end > start
        invariant
            n == s@.len(),
            start <= end <= n,
            forall|j: int| 0 <= j < start ==> is_ascii_ws(s@[j]),
            forall|j: int| end <= j < n ==> is_ascii_ws(s@[j]),
            start == n || !is_ascii_ws(s@[start as int]),
        ensures
            start <= end <= n,
            forall|j: int| end <= j < n ==> is_ascii_ws(s@[j]),
            end == start || !is_ascii_ws(s@[end - 1]),
        decreases end,
    {
        let c = s.get_char(end - 1);
        if !(c == ' ' || c == '\t' || c == '\n' || c == '\r') {
            break;
        }
        end = end - 1;
    }
    let r = s.substring_char(start, end);
    proof {
        let front = s@.skip(start as int);
        assert forall|j: int| (end - start) <= j < front.len() implies is_ascii_ws(
            #[trigger] front[j],
        ) by {
            assert(front[j] == s@[j + start]);
        }
        if end > start {
            assert(!is_ascii_ws(front[end - start - 1]));
        }
        lemma_trim_back_take(front, end - start);
        assert(front.take(end - start) =~= s@.subrange(start as int, end as int));
    }
    r
}

/// The text with four spaces after every line break.
pub open spec fn spec_indented(s: Seq<char>, i: int) -> Seq<char>
    decreases i,
{
    if i <= 0 {
        "    "@
    } else {
        let r = spec_indented(s, i - 1);
        if s[i - 1] == '\n' {
            r + "\n    "@
        } else {
            r.push(s[i - 1])
        }
    }
}

/// One output buffer rendered for display: the trailing newline dropped, the
/// text trimmed, and — unless nothing is left — every line indented by four
/// spaces.
pub open spec fn spec_render_output(input: Seq<u8>) -> Seq<char> {
    let raw = lossy_utf8(if input.len() > 0 && input.last() == 10 {
        input.drop_last()
    } else {
        input
    });
    let t = spec_trim(raw);
    if t.len() == 0 {
        Seq::empty()
    } else {
        spec_indented(t, t.len() as int)
    }
}

/// Render one captured output buffer for display.
pub fn to_str(input: &[u8]) -> (r: String)
    ensures
        r@ == spec_render_output(input@),
{
    let mut n = input.len();
    if n > 0 && input[n - 1] == 10 {
        n = n - 1;
    }
    let cut = &input[0..n];
    proof {
        assert(cut@ =~= if input@.len() > 0 && input@.last() == 10 {
            input@.drop_last()
        } else {
            input@
        });
    }
    let decoded = crate::strutil::bytes_to_string_lossy(cut);
    let trimmed = trim_ws(decoded.as_str());
    let m = trimmed.unicode_len();
    if m == 0 {
        return String::new();
    }
    let mut r = "    ".to_owned();
    let mut i: usize = 0;
    while i < m
        invariant
            m == trimmed@.len(),
            i <= m,
            r@ == spec_indented(trimmed@, i as int),
        decreases m - i,
    {
        let c = trimmed.get_char(i);
        if c == '\n' {
            r.append("\n    ");
        } else {
            r.append(trimmed.substring_char(i, i + 1));
            proof {
                assert(trimmed@.subrange(i as int, i as int + 1) =~= seq![trimmed@[i as int]]);
                assert(r@ =~= spec_indented(trimmed@, i as int).push(trimmed@[i as int]));
            }
        }
        i = i + 1;
    }
    r
}

/// Both captured buffers rendered as one block: standard output first, the
/// error stream after it, and a leading line break when anything is shown.
pub open spec fn spec_render_both(stdout: Seq<u8>, stderr: Seq<u8>) -> Seq<char> {
    let o = spec_render_output(stdout);
    let e = spec_render_output(stderr);
    let combined = if o.len() == 0 {
        e
    } else {
        o + "\n"@ + e
    };
    if combined.len() == 0 {
        combined
    } else {
        "\n"@ + combined
    }
}

/// Render both captured buffers of one result for display.
pub fn stdout_and_err_to_str(stdout: &[u8], stderr: &[u8]) -> (r: String)
    ensures
        r@ == spec_render_both(stdout@, stderr@),
{
    let o = to_str(stdout);
    let e = to_str(stderr);
    let combined = if o.as_str().is_empty() {
        e
    } else {
        concat3(o.as_str(), "\n", e.as_str())
    };
    if combined.as_str().is_empty() {
        combined
    } else {
        concat2("\n", combined.as_str())
    }
}

/// One result rendered as a plain line: the action id, its outcome tag, and
/// the retained output or error message.
pub open spec fn spec_render_line(action_id: Seq<char>, result: ActionResult) -> Seq<char> {
    match result {
        ActionResult::Success { stdout, stderr } => action_id + " [OK]"@ + spec_render_both(
            stdout@,
            stderr@,
        ),
        ActionResult::Skipped => action_id + " [SKIPPED]"@,
        ActionResult::NotApplicable => action_id + " [NOT APPLICABLE]"@,
        ActionResult::Warn { stdout, stderr } => action_id + " [WARN]"@ + spec_render_both(
            stdout@,
            stderr@,
        ),
        ActionResult::Error { message } => action_id + " [ERROR]: "@ + message@,
    }
}

/// Render one result as a plain line.
pub fn render_result_line(action_id: &str, result: &ActionResult) -> (r: String)
    ensures
        r@ == spec_render_line(action_id@, *result),
{
    match result {
        ActionResult::Success { stdout, stderr } => {
            let output = stdout_and_err_to_str(stdout.as_slice(), stderr.as_slice());
            let head = concat2(action_id, " [OK]");
            concat2(head.as_str(), output.as_str())
        },
        ActionResult::Skipped => concat2(action_id, " [SKIPPED]"),
        ActionResult::NotApplicable => concat2(action_id, " [NOT APPLICABLE]"),
        ActionResult::Warn { stdout, stderr } => {
            let output = stdout_and_err_to_str(stdout.as_slice(), stderr.as_slice());
            let head = concat2(action_id, " [WARN]");
            concat2(head.as_str(), output.as_str())
        },
        ActionResult::Error { message } => {
            let head = concat2(action_id, " [ERROR]: ");
            concat2(head.as_str(), message.as_str())
        },
    }
}

/// The running list without any entry reading `id`.
pub open spec fn spec_without(s: Seq<String>, id: Seq<char>) -> Seq<String>
    decreases s.len(),
{
    if s.len() == 0 {
        Seq::empty()
    } else {
        let rest = spec_without(s.drop_last(), id);
        if s.last()@ == id {
            rest
        } else {
            rest.push(s.last())
        }
    }
}

/// A reporter that renders every result as one plain line and keeps track of
/// the actions still running. The application prints the collected lines.
#[derive(Debug, Default)]
pub struct Reporter {
    running: Vec<String>,
    lines: Vec<String>,
    finished: bool,
}

impl Reporter {
    pub closed spec fn spec_running(&self) -> Seq<String> {
        self.running@
    }

    pub closed spec fn spec_lines(&self) -> Seq<String> {
        self.lines@
    }

    pub closed spec fn spec_finished(&self) -> bool {
        self.finished
    }

    pub fn new() -> (r: Self)
        ensures
            r.spec_running().len() == 0,
            r.spec_lines().len() == 0,
            !r.spec_finished(),
    {
        Reporter { running: Vec::new(), lines: Vec::new(), finished: false }
    }

    /// Note a started action.
    pub fn report_start(&mut self, action_id: String)
        ensures
            final(self).spec_running() == old(self).spec_running().push(action_id),
            final(self).spec_lines() == old(self).spec_lines(),
            final(self).spec_finished() == old(self).spec_finished(),
    {
        self.running.push(action_id);
    }

    /// Note a finished action: drop it from the running list and render its
    /// result as one line.
    pub fn report_done(&mut self, action_id: String, result: ActionResult)
        ensures
            final(self).spec_running() == spec_without(old(self).spec_running(), action_id@),
            final(self).spec_lines().len() == old(self).spec_lines().len() + 1,
            final(self).spec_lines().drop_last() == old(self).spec_lines(),
            final(self).spec_lines().last()@ == spec_render_line(action_id@, result),
            final(self).spec_finished() == old(self).spec_finished(),
    {
        let mut kept: Vec<String> = Vec::new();
        let n = self.running.len();
        let mut i: usize = 0;
        while i < n
            invariant
                n == self.running@.len(),
                i <= n,
                kept@ == spec_without(self.running@.subrange(0, i as int), action_id@),
            decreases n - i,
        {
            proof {
                assert(self.running@.subrange(0, i as int + 1).drop_last() =~= self.running@
                    .subrange(0, i as int));
                assert(self.running@.subrange(0, i as int + 1).last() == self.running@[i as int]);
            }
            if !str_eq(self.running[i].as_str(), action_id.as_str()) {
                kept.push(self.running[i].clone());
            }
            i = i + 1;
        }
        proof {
            assert(self.running@.subrange(0, n as int) =~= self.running@);
        }
        self.running = kept;
        let line = render_result_line(action_id.as_str(), &result);
        self.lines.push(line);
    }

    /// Note the end of the event stream.
    pub fn finish(&mut self)
        ensures
            final(self).spec_running() == old(self).spec_running(),
            final(self).spec_lines() == old(self).spec_lines(),
            final(self).spec_finished(),
    {
        self.finished = true;
    }

    /// The actions still running, for a status line.
    pub fn running_actions(&self) -> (r: &Vec<String>)
        ensures
            r@ == self.spec_running(),
    {
        &self.running
    }

    /// The rendered lines so far.
    pub fn rendered_lines(&self) -> (r: &Vec<String>)
        ensures
            r@ == self.spec_lines(),
    {
        &self.lines
    }
}

} // verus!
