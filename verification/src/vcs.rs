//! Version control support: which tools are known, the command lines they
//! are invoked with, and how their output is parsed into file lists. The
//! subprocess spawning itself stays with the application.

use vstd::prelude::*;

use crate::strutil::bytes_to_string_lossy;
use crate::strutil::concat2;
use crate::strutil::lossy_utf8;

verus! {

/// The byte sequence without one trailing line feed and one trailing
/// carriage return before it.
pub open spec fn spec_trim_newline(b: Seq<u8>) -> Seq<u8> {
    let b1 = if b.len() > 0 && b.last() == 10 {
        b.drop_last()
    } else {
        b
    };
    if b1.len() > 0 && b1.last() == 13 {
        b1.drop_last()
    } else {
        b1
    }
}

/// Decode one tool's output: drop a trailing newline, then read the bytes as
/// text.
pub fn output_to_string(input: &[u8]) -> (r: String)
    ensures
        r@ == lossy_utf8(spec_trim_newline(input@)),
{
    let mut n = input.len();
    if n > 0 && input[n - 1] == 10 {
        n = n - 1;
    }
    if n > 0 && input[n - 1] == 13 {
        n = n - 1;
    }
    let trimmed = &input[0..n];
    proof {
        assert(trimmed@ =~= spec_trim_newline(input@));
    }
    bytes_to_string_lossy(trimmed)
}

/// Splitting NUL-separated output after the first `i` bytes: the finished
/// file names (each decoded with its trailing newline dropped) and the bytes
/// of the segment still open.
pub open spec fn spec_zero_split_run(b: Seq<u8>, i: int) -> (Seq<Seq<char>>, Seq<u8>)
    decreases i,
{
    if i <= 0 {
        (Seq::empty(), Seq::empty())
    } else {
        let (done, cur) = spec_zero_split_run(b, i - 1);
        if b[i - 1] == 0 {
            if cur.len() > 0 {
                (done.push(lossy_utf8(spec_trim_newline(cur))), Seq::empty())
            } else {
                (done, Seq::empty())
            }
        } else {
            (done, cur.push(b[i - 1]))
        }
    }
}

/// The file names in NUL-separated output, empty segments dropped.
pub open spec fn spec_zero_split(b: Seq<u8>) -> Seq<Seq<char>> {
    let (done, cur) = spec_zero_split_run(b, b.len() as int);
    if cur.len() > 0 {
        done.push(lossy_utf8(spec_trim_newline(cur)))
    } else {
        done
    }
}

/// Split NUL-separated tool output into the named files, dropping empty
/// segments.
pub fn zero_split_files(output: &[u8]) -> (r: Vec<String>)
    ensures
        r.deep_view() == spec_zero_split(output@),
{
    let mut done: Vec<String> = Vec::new();
    let mut cur: Vec<u8> = Vec::new();
    let n = output.len();
    let mut i: usize = 0;
    while i < n
        invariant
            n == output@.len(),
            i <= n,
            (done.deep_view(), cur@) == spec_zero_split_run(output@, i as int),
        decreases n - i,
    {
        let b = output[i];
        if b == 0 {
            if cur.len() > 0 {
                let s = output_to_string(cur.as_slice());
                done.push(s);
                cur = Vec::new();
                proof {
                    assert(done.deep_view() =~~= spec_zero_split_run(output@, i as int + 1).0);
                }
            }
        } else {
            cur.push(b);
        }
        i = i + 1;
    }
    if cur.len() > 0 {
        let s = output_to_string(cur.as_slice());
        done.push(s);
        proof {
            assert(done.deep_view() =~~= spec_zero_split(output@));
        }
    }
    done
}

/// One line of jj's status output kept as a changed file: the line (its
/// trailing carriage return dropped) must be longer than the two status
/// characters and must not mark a deletion; what follows the status prefix
/// is the file name.
pub open spec fn spec_jj_line_kept(line: Seq<char>) -> Option<Seq<char>> {
    let l = if line.len() > 0 && line.last() == '\r' {
        line.drop_last()
    } else {
        line
    };
    if l.len() > 2 && l.subrange(0, 2) != "D "@ {
        Some(l.subrange(2, l.len() as int))
    } else {
        None
    }
}

/// Parsing jj's line-based output after the first `i` characters.
pub open spec fn spec_jj_parse_run(s: Seq<char>, i: int) -> (Seq<Seq<char>>, Seq<char>)
    decreases i,
{
    if i <= 0 {
        (Seq::empty(), Seq::empty())
    } else {
        let (done, cur) = spec_jj_parse_run(s, i - 1);
        if s[i - 1] == '\n' {
            match spec_jj_line_kept(cur) {
                Some(f) => (done.push(f), Seq::empty()),
                None => (done, Seq::empty()),
            }
        } else {
            (done, cur.push(s[i - 1]))
        }
    }
}

/// The changed files named in jj's line-based output.
pub open spec fn spec_jj_parse(s: Seq<char>) -> Seq<Seq<char>> {
    let (done, cur) = spec_jj_parse_run(s, s.len() as int);
    if cur.len() > 0 {
        match spec_jj_line_kept(cur) {
            Some(f) => done.push(f),
            None => done,
        }
    } else {
        done
    }
}

/// Keep one line of jj output: everything after the two status characters,
/// unless the line is a deletion or too short.
fn jj_line_kept(line: &str) -> (r: Option<String>)
    ensures
        match r {
            Some(f) => spec_jj_line_kept(line@) == Some(f@),
            None => spec_jj_line_kept(line@) is None,
        },
{
    proof {
        reveal_strlit("D ");
    }
    let mut n = line.unicode_len();
    if n > 0 && line.get_char(n - 1) == '\r' {
        n = n - 1;
    }
    let ghost l = if line@.len() > 0 && line@.last() == '\r' {
        line@.drop_last()
    } else {
        line@
    };
    proof {
        assert(l =~= line@.subrange(0, n as int));
    }
    if n <= 2 {
        return None;
    }
    let is_deletion = line.get_char(0) == 'D' && line.get_char(1) == ' ';
    proof {
        assert(l.subrange(0, 2)[0] == line@[0] && l.subrange(0, 2)[1] == line@[1]);
        assert("D "@[0] == 'D' && "D "@[1] == ' ');
        if is_deletion {
            assert(l.subrange(0, 2) =~= "D "@);
        } else {
            assert(l.subrange(0, 2) != "D "@);
        }
    }
    if is_deletion {
        None
    } else {
        let f = line.substring_char(2, n);
        proof {
            assert(f@ =~= l.subrange(2, l.len() as int));
        }
        Some(f.to_owned())
    }
}

/// Parse jj's line-based status output into the changed files.
pub fn jj_parse_changed_files(output: &[u8]) -> (r: Vec<String>)
    ensures
        r.deep_view() == spec_jj_parse(lossy_utf8(spec_trim_newline(output@))),
{
    let text = output_to_string(output);
    let s = text.as_str();
    let n = s.unicode_len();
    let mut done: Vec<String> = Vec::new();
    let mut cur_start: usize = 0;
    let mut i: usize = 0;
    while i < n
        invariant
            n == s@.len(),
            cur_start <= i <= n,
            (done.deep_view(), s@.subrange(cur_start as int, i as int)) == spec_jj_parse_run(
                s@,
                i as int,
            ),
        decreases n - i,
    {
        let c = s.get_char(i);
        proof {
            assert(s@.subrange(cur_start as int, i as int + 1) =~= s@.subrange(
                cur_start as int,
                i as int,
            ).push(s@[i as int]));
        }
        if c == '\n' {
            let line = s.substring_char(cur_start, i);
            match jj_line_kept(line) {
                Some(f) => {
                    done.push(f);
                    proof {
                        assert(done.deep_view() =~~= spec_jj_parse_run(s@, i as int + 1).0);
                    }
                },
                None => {},
            }
            cur_start = i + 1;
            proof {
                assert(s@.subrange(cur_start as int, i as int + 1) =~= Seq::<char>::empty());
            }
        }
        i = i + 1;
    }
    if cur_start < n {
        let line = s.substring_char(cur_start, n);
        match jj_line_kept(line) {
            Some(f) => {
                done.push(f);
                proof {
                    assert(done.deep_view() =~~= spec_jj_parse(s@));
                }
            },
            None => {},
        }
    } else {
        proof {
            assert(s@.subrange(cur_start as int, n as int).len() == 0);
        }
    }
    done
}

/// One supported version control system.
#[derive(Clone, Copy, Debug, PartialEq, Eq, Structural)]
pub enum VcsKind {
    Jj,
    Git,
}

/// The protocol of one version control system: the command lines to run and
/// how to read what they print. The application spawns the subprocesses.
pub trait Vcs {
    /// The tool's name in spec form.
    spec fn spec_name(&self) -> Seq<char>;

    /// The arguments of the changed-files query, given the revision range.
    spec fn spec_changed_files_args(&self, from: Option<Seq<char>>, to: Option<Seq<char>>) -> Seq<
        Seq<char>,
    >;

    /// The changed files named in the query's standard output.
    spec fn spec_parse_changed_files(&self, output: Seq<u8>) -> Seq<Seq<char>>;

    /// The arguments of the repository-root query.
    spec fn spec_root_args(&self) -> Seq<Seq<char>>;

    /// Whether the changed-files query counts as having succeeded, given the
    /// subprocess's exit code and success flag.
    spec fn spec_query_ok(&self, code: Option<int>, success: bool) -> bool;

    /// A failed query yields an empty file list instead of an error.
    spec fn spec_failure_yields_empty(&self) -> bool;

    /// The tool's name, which is also its executable.
    fn name(&self) -> (r: String)
        ensures
            r@ == self.spec_name(),
    ;

    /// The arguments of the changed-files query.
    fn changed_files_args(&self, from_revision: &Option<String>, to_revision: &Option<String>) -> (r:
        Vec<String>)
        ensures
            r.deep_view() == self.spec_changed_files_args(
                match from_revision {
                    Some(f) => Some(f@),
                    None => None,
                },
                match to_revision {
                    Some(t) => Some(t@),
                    None => None,
                },
            ),
    ;

    /// Parse the query's standard output into the changed files.
    fn parse_changed_files(&self, output: &[u8]) -> (r: Vec<String>)
        ensures
            r.deep_view() == self.spec_parse_changed_files(output@),
    ;

    /// The arguments of the repository-root query.
    fn repository_root_args(&self) -> (r: Vec<String>)
        ensures
            r.deep_view() == self.spec_root_args(),
    ;

    /// Whether the changed-files query succeeded.
    fn query_ok(&self, code: Option<i32>, success: bool) -> (r: bool)
        ensures
            r == self.spec_query_ok(
                match code {
                    Some(c) => Some(c as int),
                    None => None,
                },
                success,
            ),
    ;

    /// Whether a failed query yields an empty list instead of an error.
    fn failure_yields_empty(&self) -> (r: bool)
        ensures
            r == self.spec_failure_yields_empty(),
    ;
}

#[derive(Clone, Copy, Debug, Default)]
pub struct Git {
}

impl Git {
    pub fn new() -> (r: Self)
    {
        Git {  }
    }
}

impl Vcs for Git {
    open spec fn spec_name(&self) -> Seq<char> {
        "git"@
    }

    open spec fn spec_changed_files_args(&self, from: Option<Seq<char>>, to: Option<Seq<char>>)
        -> Seq<Seq<char>> {
        let base = seq!["diff"@, "--name-only"@, "--no-ext-diff"@, "-z"@];
        match (from, to) {
            (None, None) => base,
            (Some(f), None) => base.push(f),
            (None, Some(t)) => base.push(t + "~"@).push(t),
            (Some(f), Some(t)) => base.push(f).push(t),
        }
    }

    open spec fn spec_parse_changed_files(&self, output: Seq<u8>) -> Seq<Seq<char>> {
        spec_zero_split(output)
    }

    open spec fn spec_root_args(&self) -> Seq<Seq<char>> {
        seq!["rev-parse"@, "--show-toplevel"@]
    }

    open spec fn spec_query_ok(&self, code: Option<int>, success: bool) -> bool {
        success
    }

    open spec fn spec_failure_yields_empty(&self) -> bool {
        true
    }

    fn name(&self) -> (r: String) {
        "git".to_owned()
    }

    fn changed_files_args(&self, from_revision: &Option<String>, to_revision: &Option<String>) -> (r:
        Vec<String>) {
        let mut r: Vec<String> = Vec::new();
        r.push("diff".to_owned());
        r.push("--name-only".to_owned());
        r.push("--no-ext-diff".to_owned());
        r.push("-z".to_owned());
        match (from_revision, to_revision) {
            (None, None) => {
                proof {
                    assert(r.deep_view() =~~= self.spec_changed_files_args(None, None));
                }
            },
            (Some(f), None) => {
                r.push(f.clone());
                proof {
                    assert(r.deep_view() =~~= self.spec_changed_files_args(Some(f@), None));
                }
            },
            (None, Some(t)) => {
                r.push(concat2(t.as_str(), "~"));
                r.push(t.clone());
                proof {
                    assert(r.deep_view() =~~= self.spec_changed_files_args(None, Some(t@)));
                }
            },
            (Some(f), Some(t)) => {
                r.push(f.clone());
                r.push(t.clone());
                proof {
                    assert(r.deep_view() =~~= self.spec_changed_files_args(Some(f@), Some(t@)));
                }
            },
        }
        r
    }

    fn parse_changed_files(&self, output: &[u8]) -> (r: Vec<String>) {
        zero_split_files(output)
    }

    fn repository_root_args(&self) -> (r: Vec<String>) {
        let mut r: Vec<String> = Vec::new();
        r.push("rev-parse".to_owned());
        r.push("--show-toplevel".to_owned());
        proof {
            assert(r.deep_view() =~~= self.spec_root_args());
        }
        r
    }

    fn query_ok(&self, code: Option<i32>, success: bool) -> (r: bool) {
        success
    }

    fn failure_yields_empty(&self) -> (r: bool) {
        true
    }
}

#[derive(Clone, Copy, Debug, Default)]
pub struct Jj {
}

impl Jj {
    pub fn new() -> (r: Self)
    {
        Jj {  }
    }
}

impl Vcs for Jj {
    open spec fn spec_name(&self) -> Seq<char> {
        "jj"@
    }

    open spec fn spec_changed_files_args(&self, from: Option<Seq<char>>, to: Option<Seq<char>>)
        -> Seq<Seq<char>> {
        let f = match from {
            Some(fr) => "--from="@ + fr,
            None => "--from=@-"@,
        };
        let t = match to {
            Some(to_rev) => "--to="@ + to_rev,
            None => "--to=@"@,
        };
        seq!["--color=never"@, "interdiff"@, "-s"@, f, t]
    }

    open spec fn spec_parse_changed_files(&self, output: Seq<u8>) -> Seq<Seq<char>> {
        spec_jj_parse(lossy_utf8(spec_trim_newline(output)))
    }

    open spec fn spec_root_args(&self) -> Seq<Seq<char>> {
        seq!["--color=never"@, "workspace"@, "root"@]
    }

    open spec fn spec_query_ok(&self, code: Option<int>, success: bool) -> bool {
        code is None || code == Some(0int)
    }

    open spec fn spec_failure_yields_empty(&self) -> bool {
        false
    }

    fn name(&self) -> (r: String) {
        "jj".to_owned()
    }

    fn changed_files_args(&self, from_revision: &Option<String>, to_revision: &Option<String>) -> (r:
        Vec<String>) {
        let from = match from_revision {
            Some(fr) => concat2("--from=", fr.as_str()),
            None => "--from=@-".to_owned(),
        };
        let to = match to_revision {
            Some(t) => concat2("--to=", t.as_str()),
            None => "--to=@".to_owned(),
        };
        let ghost gfrom = from@;
        let ghost gto = to@;
        let mut r: Vec<String> = Vec::new();
        r.push("--color=never".to_owned());
        r.push("interdiff".to_owned());
        r.push("-s".to_owned());
        r.push(from);
        r.push(to);
        proof {
            assert(r.deep_view() =~~= seq!["--color=never"@, "interdiff"@, "-s"@, gfrom, gto]);
        }
        r
    }

    fn parse_changed_files(&self, output: &[u8]) -> (r: Vec<String>) {
        jj_parse_changed_files(output)
    }

    fn repository_root_args(&self) -> (r: Vec<String>) {
        let mut r: Vec<String> = Vec::new();
        r.push("--color=never".to_owned());
        r.push("workspace".to_owned());
        r.push("root".to_owned());
        proof {
            assert(r.deep_view() =~~= self.spec_root_args());
        }
        r
    }

    fn query_ok(&self, code: Option<i32>, success: bool) -> (r: bool) {
        match code {
            None => true,
            Some(c) => c == 0,
        }
    }

    fn failure_yields_empty(&self) -> (r: bool) {
        false
    }
}

/// The supported version control systems, in auto-detection order.
pub fn known_vcses() -> (r: Vec<VcsKind>)
    ensures
        r@ == seq![VcsKind::Jj, VcsKind::Git],
{
    let mut r: Vec<VcsKind> = Vec::new();
    r.push(VcsKind::Jj);
    r.push(VcsKind::Git);
    proof {
        assert(r@ =~= seq![VcsKind::Jj, VcsKind::Git]);
    }
    r
}

/// The tool a name picks, if it is supported.
pub fn vcs_by_name(name: &str) -> (r: Option<VcsKind>)
    ensures
        r == if name@ == "git"@ {
            Some(VcsKind::Git)
        } else if name@ == "jj"@ {
            Some(VcsKind::Jj)
        } else {
            None::<VcsKind>
        },
{
    if crate::strutil::str_eq(name, "git") {
        Some(VcsKind::Git)
    } else if crate::strutil::str_eq(name, "jj") {
        Some(VcsKind::Jj)
    } else {
        None
    }
}

} // verus!
