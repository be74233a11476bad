//! The checks behind the built-in commands: binary-file detection, line
//! ending counting and normalization, and small argument helpers. The file
//! reading and rewriting around them stays with the application.

use vstd::prelude::*;

use crate::strutil::all_digits;
use crate::strutil::digits_val;
use crate::strutil::parse_u64;

verus! {

// ---------------------------------------------------------------------------
// Binary detection.
// ---------------------------------------------------------------------------

/// The mathematical state of the binary detector.
pub struct BinaryState {
    pub total: int,
    pub odd: int,
    pub early: bool,
    pub expected: int,
}

pub open spec fn initial_binary_state() -> BinaryState {
    BinaryState { total: 0, odd: 0, early: false, expected: 0 }
}

/// One byte fed to the detector: a NUL decides early; inside a multi-byte
/// sequence, continuation bytes count as odd; sequence starters arm the
/// expected length; ordinary text bytes pass; anything else counts as odd.
pub open spec fn spec_binary_step(m: BinaryState, b: u8) -> (BinaryState, bool) {
    let m1 = BinaryState { total: m.total + 1, odd: m.odd, early: m.early, expected: m.expected };
    if m1.early {
        (m1, true)
    } else if b == 0 {
        (BinaryState { total: m1.total, odd: m1.odd, early: true, expected: m1.expected }, true)
    } else if m1.expected > 0 {
        let m2 = BinaryState {
            total: m1.total,
            odd: m1.odd,
            early: m1.early,
            expected: m1.expected - 1,
        };
        if b & 0xc0u8 == 0x80u8 {
            (
                BinaryState { total: m2.total, odd: m2.odd + 1, early: m2.early, expected: m2.expected },
                false,
            )
        } else {
            (m2, false)
        }
    } else if b & 0xf0u8 == 0xe0u8 {
        (BinaryState { total: m1.total, odd: m1.odd, early: m1.early, expected: 3 }, false)
    } else if b & 0xe0u8 == 0xc0u8 {
        (BinaryState { total: m1.total, odd: m1.odd, early: m1.early, expected: 2 }, false)
    } else if b >= 32 || b == 10 || b == 13 || b == 9 || b == 7 || b == 12 {
        (m1, false)
    } else {
        (BinaryState { total: m1.total, odd: m1.odd + 1, early: m1.early, expected: m1.expected }, false)
    }
}

/// Whether the finished detector calls its input binary.
pub open spec fn spec_binary_verdict(m: BinaryState) -> bool {
    m.early || (m.total / 10) * 3 > m.odd
}

/// A streaming detector of binary content: a NUL byte decides at once;
/// otherwise the byte statistics decide at the end.
#[derive(Clone, Debug)]
pub struct IsBinary {
    total_bytes: usize,
    odd_bytes: usize,
    early_decision: bool,
    expected_utf8_bytes: usize,
}

impl IsBinary {
    pub closed spec fn model(&self) -> BinaryState {
        BinaryState {
            total: self.total_bytes as int,
            odd: self.odd_bytes as int,
            early: self.early_decision,
            expected: self.expected_utf8_bytes as int,
        }
    }

    pub open spec fn wf(&self) -> bool {
        0 <= self.model().odd <= self.model().total && 0 <= self.model().expected <= 3
    }

    pub fn new() -> (r: Self)
        ensures
            r.wf(),
            r.model() == initial_binary_state(),
    {
        IsBinary { total_bytes: 0, odd_bytes: 0, early_decision: false, expected_utf8_bytes: 0 }
    }

    /// Feed one byte; `true` ends the scan early: the input is binary.
    pub fn is_binary(&mut self, b: u8) -> (r: bool)
        requires
            old(self).wf(),
            old(self).model().total < usize::MAX,
        ensures
            final(self).wf(),
            (final(self).model(), r) == spec_binary_step(old(self).model(), b),
    {
        self.total_bytes = self.total_bytes + 1;

        if self.early_decision {
            return true;
        }
        if b == 0 {
            self.early_decision = true;
            return true;
        }
        if self.expected_utf8_bytes > 0 {
            self.expected_utf8_bytes = self.expected_utf8_bytes - 1;
            if b & 0xc0u8 == 0x80u8 {
                self.odd_bytes = self.odd_bytes + 1;
            }
        } else if b & 0xf0u8 == 0xe0u8 {
            self.expected_utf8_bytes = 3;
        } else if b & 0xe0u8 == 0xc0u8 {
            self.expected_utf8_bytes = 2;
        } else if b >= 32 || b == 10 || b == 13 || b == 9 || b == 7 || b == 12 {
            // an ordinary text byte
        } else {
            self.odd_bytes = self.odd_bytes + 1;
        }
        false
    }

    /// The verdict over everything fed so far.
    pub fn final_verdict(self) -> (r: bool)
        requires
            self.wf(),
        ensures
            r == spec_binary_verdict(self.model()),
    {
        if self.early_decision {
            return true;
        }
        let q = self.total_bytes / 10;
        proof {
            assert(q <= usize::MAX / 10);
            assert(q * 3 <= usize::MAX) by (nonlinear_arith)
                requires
                    q <= usize::MAX / 10,
            ;
        }
        q * 3 > self.odd_bytes
    }
}

// ---------------------------------------------------------------------------
// Line ending counting.
// ---------------------------------------------------------------------------

/// The mathematical state of the line ending counter: how many CR, CRLF and
/// LF endings were seen, and the byte before the current one.
pub struct LineState {
    pub cr: int,
    pub crlf: int,
    pub lf: int,
    pub last: u8,
}

pub open spec fn initial_line_state() -> LineState {
    LineState { cr: 0, crlf: 0, lf: 0, last: 0 }
}

/// One byte fed to the counter: a CRLF pair counts once; a CR followed by
/// anything else is a lone CR; an LF not after CR is a lone LF.
pub open spec fn spec_line_step(m: LineState, b: u8) -> LineState {
    let last = m.last;
    if last == 13 && b == 10 {
        LineState { cr: m.cr, crlf: m.crlf + 1, lf: m.lf, last: b }
    } else if last == 13 {
        LineState { cr: m.cr + 1, crlf: m.crlf, lf: m.lf, last: b }
    } else if b == 10 {
        LineState { cr: m.cr, crlf: m.crlf, lf: m.lf + 1, last: b }
    } else {
        LineState { cr: m.cr, crlf: m.crlf, lf: m.lf, last: b }
    }
}

/// Whether the input mixes ending kinds, and which kind leads; a tie goes
/// to the latest of lone CR, CRLF, LF.
pub open spec fn spec_line_verdict(m: LineState) -> (bool, int) {
    let m2 = spec_line_step(m, 0);
    let kinds = (if m2.cr > 0 {
        1int
    } else {
        0int
    }) + (if m2.crlf > 0 {
        1int
    } else {
        0int
    }) + (if m2.lf > 0 {
        1int
    } else {
        0int
    });
    let majority = if m2.lf >= m2.crlf && m2.lf >= m2.cr {
        2int
    } else if m2.crlf >= m2.cr {
        1int
    } else {
        0int
    };
    (kinds > 1, majority)
}

/// A streaming counter of line ending kinds.
#[derive(Clone, Debug)]
pub struct IsMixedLineEnding {
    cr_count: usize,
    crlf_count: usize,
    lf_count: usize,
    last_byte: u8,
}

impl IsMixedLineEnding {
    pub closed spec fn model(&self) -> LineState {
        LineState {
            cr: self.cr_count as int,
            crlf: self.crlf_count as int,
            lf: self.lf_count as int,
            last: self.last_byte,
        }
    }

    pub fn new() -> (r: Self)
        ensures
            r.model() == initial_line_state(),
    {
        IsMixedLineEnding { cr_count: 0, crlf_count: 0, lf_count: 0, last_byte: 0 }
    }

    /// Feed one byte.
    pub fn count_line_endings(&mut self, byte: u8)
        requires
            old(self).model().cr + old(self).model().crlf + old(self).model().lf < usize::MAX,
        ensures
            final(self).model() == spec_line_step(old(self).model(), byte),
    {
        let last = self.last_byte;
        self.last_byte = byte;
        if last == 13 && byte == 10 {
            self.crlf_count = self.crlf_count + 1;
        } else if last == 13 {
            self.cr_count = self.cr_count + 1;
        } else if byte == 10 {
            self.lf_count = self.lf_count + 1;
        }
    }

    /// The verdict over everything fed so far: whether the endings are mixed,
    /// and the majority kind (0 lone CR, 1 CRLF, 2 LF).
    pub fn final_verdict(self) -> (r: (bool, usize))
        requires
            self.model().cr + self.model().crlf + self.model().lf < usize::MAX,
        ensures
            (r.0, r.1 as int) == spec_line_verdict(self.model()),
    {
        let mut this = self;
        this.count_line_endings(0);
        let mut kinds: usize = 0;
        if this.cr_count > 0 {
            kinds = kinds + 1;
        }
        if this.crlf_count > 0 {
            kinds = kinds + 1;
        }
        if this.lf_count > 0 {
            kinds = kinds + 1;
        }
        let majority: usize = if this.lf_count >= this.crlf_count && this.lf_count >= this.cr_count {
            2
        } else if this.crlf_count >= this.cr_count {
            1
        } else {
            0
        };
        (kinds > 1, majority)
    }
}

// ---------------------------------------------------------------------------
// The combined scan and the rewrite.
// ---------------------------------------------------------------------------

/// Both detectors run over the first `i` bytes, stopping at an early binary
/// decision; the flag records whether the scan stopped.
pub open spec fn spec_detect_run(bytes: Seq<u8>, i: int) -> (BinaryState, LineState, bool)
    decreases i,
{
    if i <= 0 {
        (initial_binary_state(), initial_line_state(), false)
    } else {
        let prev = spec_detect_run(bytes, i - 1);
        if prev.2 {
            prev
        } else {
            let (bm, stop) = spec_binary_step(prev.0, bytes[i - 1]);
            if stop {
                (bm, prev.1, true)
            } else {
                (bm, spec_line_step(prev.1, bytes[i - 1]), false)
            }
        }
    }
}

/// What scanning a whole input yields: binary content short-circuits; text
/// content reports whether its endings are mixed and which kind leads.
pub open spec fn spec_detect(bytes: Seq<u8>) -> (bool, bool, int) {
    let (bm, lm, _) = spec_detect_run(bytes, bytes.len() as int);
    if spec_binary_verdict(bm) {
        (true, false, 0)
    } else {
        let (mixed, majority) = spec_line_verdict(lm);
        (false, mixed, majority)
    }
}

proof fn lemma_detect_run_bounds(bytes: Seq<u8>, i: int)
    requires
        0 <= i,
    ensures
        ({
            let (bm, lm, _) = spec_detect_run(bytes, i);
            &&& 0 <= bm.odd <= bm.total <= i
            &&& 0 <= bm.expected <= 3
            &&& 0 <= lm.cr + lm.crlf + lm.lf <= i
            &&& 0 <= lm.cr && 0 <= lm.crlf && 0 <= lm.lf
        }),
    decreases i,
{
    if i > 0 {
        lemma_detect_run_bounds(bytes, i - 1);
    }
}

/// Scan one file's contents: `(binary, mixed, majority)`. A binary file is
/// reported as such with no line ending information; a text file reports
/// whether its line endings are mixed and which kind is in the majority.
pub fn detect_mixed_line_endings(contents: &[u8]) -> (r: (bool, bool, usize))
    requires
        contents@.len() < usize::MAX,
    ensures
        (r.0, r.1, r.2 as int) == spec_detect(contents@),
{
    let mut binary_checker = IsBinary::new();
    let mut mixed_line_end_checker = IsMixedLineEnding::new();
    let n = contents.len();
    let mut i: usize = 0;
    let mut stopped = false;
    while i < n && !stopped
        invariant
            n == contents@.len(),
            i <= n,
            binary_checker.wf(),
            (binary_checker.model(), mixed_line_end_checker.model(), stopped) == spec_detect_run(
                contents@,
                i as int,
            ),
            stopped ==> spec_detect_run(contents@, n as int) == spec_detect_run(
                contents@,
                i as int,
            ),
        decreases n - i + if stopped {
            0int
        } else {
            1int
        },
    {
        proof {
            lemma_detect_run_bounds(contents@, i as int);
        }
        let b = contents[i];
        if binary_checker.is_binary(b) {
            stopped = true;
            proof {
                lemma_detect_run_frozen(contents@, i as int + 1, n as int);
            }
        } else {
            mixed_line_end_checker.count_line_endings(b);
        }
        i = i + 1;
    }
    proof {
        lemma_detect_run_bounds(contents@, n as int);
    }
    if binary_checker.final_verdict() {
        (true, false, 0)
    } else {
        let (mixed, majority) = mixed_line_end_checker.final_verdict();
        (false, mixed, majority)
    }
}

/// Once the scan stopped, later prefixes change nothing.
proof fn lemma_detect_run_frozen(bytes: Seq<u8>, i: int, j: int)
    requires
        0 <= i <= j,
        spec_detect_run(bytes, i).2,
    ensures
        spec_detect_run(bytes, j) == spec_detect_run(bytes, i),
    decreases j - i,
{
    if j > i {
        lemma_detect_run_frozen(bytes, i, j - 1);
    }
}

/// The bytes of the line ending that index names: lone CR, CRLF, or LF.
pub open spec fn spec_ending(idx: int) -> Seq<u8> {
    if idx == 0 {
        seq![13u8]
    } else if idx == 1 {
        seq![13u8, 10u8]
    } else {
        seq![10u8]
    }
}

/// The rewrite after the first `i` bytes: the output so far and whether the
/// last consumed byte was a lone CR still awaiting its replacement.
pub open spec fn spec_fix_run(bytes: Seq<u8>, i: int, idx: int) -> (Seq<u8>, bool)
    decreases i,
{
    if i <= 0 {
        (Seq::empty(), false)
    } else {
        let (out, pending_cr) = spec_fix_run(bytes, i - 1, idx);
        let b = bytes[i - 1];
        if b == 13 {
            let out2 = if pending_cr {
                out + spec_ending(idx)
            } else {
                out
            };
            (out2, true)
        } else if b == 10 {
            (out + spec_ending(idx), false)
        } else {
            let out2 = if pending_cr {
                out + spec_ending(idx)
            } else {
                out
            };
            (out2.push(b), false)
        }
    }
}

/// Rewrite every line ending of a text to the kind `fix_index` names
/// (0 lone CR, 1 CRLF, 2 LF).
pub fn fix_mixed_line_endings(contents: &[u8], fix_index: usize) -> (r: Vec<u8>)
    requires
        fix_index < 3,
    ensures
        r@ == spec_fix_run(contents@, contents@.len() as int, fix_index as int).0,
{
    let mut changed: Vec<u8> = Vec::new();
    let mut last_was_cr = false;
    let n = contents.len();
    let mut i: usize = 0;
    while i < n
        invariant
            n == contents@.len(),
            i <= n,
            fix_index < 3,
            (changed@, last_was_cr) == spec_fix_run(contents@, i as int, fix_index as int),
        decreases n - i,
    {
        let b = contents[i];
        if b == 13 {
            if last_was_cr {
                push_ending(&mut changed, fix_index);
            }
            last_was_cr = true;
        } else if b == 10 {
            push_ending(&mut changed, fix_index);
            last_was_cr = false;
        } else {
            if last_was_cr {
                push_ending(&mut changed, fix_index);
                last_was_cr = false;
            }
            changed.push(b);
        }
        i = i + 1;
    }
    changed
}

/// Append the named line ending.
fn push_ending(buf: &mut Vec<u8>, idx: usize)
    requires
        idx < 3,
    ensures
        final(buf)@ == old(buf)@ + spec_ending(idx as int),
{
    if idx == 0 {
        buf.push(13);
        proof {
            assert(buf@ =~= old(buf)@ + spec_ending(0));
        }
    } else if idx == 1 {
        buf.push(13);
        buf.push(10);
        proof {
            assert(buf@ =~= old(buf)@ + spec_ending(1));
        }
    } else {
        buf.push(10);
        proof {
            assert(buf@ =~= old(buf)@ + spec_ending(2));
        }
    }
}

// ---------------------------------------------------------------------------
// Argument helpers of the built-in commands.
// ---------------------------------------------------------------------------

/// The multiplier the size suffix names.
pub open spec fn spec_size_factor(c: char) -> nat {
    if c == 'k' || c == 'K' {
        1024
    } else if c == 'm' || c == 'M' {
        1024 * 1024
    } else if c == 'g' || c == 'G' {
        1024 * 1024 * 1024
    } else if c == 't' || c == 'T' {
        1024 * 1024 * 1024 * 1024
    } else {
        1
    }
}

/// The digits of a size: everything before a recognized suffix.
pub open spec fn spec_size_digits(s: Seq<char>) -> Seq<char> {
    if spec_size_factor(s.last()) == 1 {
        s
    } else {
        s.drop_last()
    }
}

/// Parse a size with an optional binary suffix (`k`, `m`, `g`, `t`, upper or
/// lower case).
pub fn parse_size(input: &str) -> (r: Result<u64, String>)
    requires
        input@.len() > 0,
        digits_val(spec_size_digits(input@)) * spec_size_factor(input@.last()) <= u64::MAX,
    ensures
        r is Ok <==> spec_size_digits(input@).len() > 0 && all_digits(spec_size_digits(input@)),
        r matches Ok(v) ==> v as nat == digits_val(spec_size_digits(input@)) * spec_size_factor(
            input@.last(),
        ),
{
    let n = input.unicode_len();
    let last_char = input.get_char(n - 1);
    let factor: u64 = if last_char == 'k' || last_char == 'K' {
        1024
    } else if last_char == 'm' || last_char == 'M' {
        1024 * 1024
    } else if last_char == 'g' || last_char == 'G' {
        1024 * 1024 * 1024
    } else if last_char == 't' || last_char == 'T' {
        1024 * 1024 * 1024 * 1024
    } else {
        1
    };
    let to_parse = if factor == 1 {
        input
    } else {
        input.substring_char(0, n - 1)
    };
    proof {
        assert(to_parse@ == spec_size_digits(input@));
        assert(factor as nat == spec_size_factor(input@.last()));
    }
    match parse_u64(to_parse) {
        Some(base) => {
            proof {
                assert(base * factor <= u64::MAX) by (nonlinear_arith)
                    requires
                        base as nat == digits_val(spec_size_digits(input@)),
                        factor as nat == spec_size_factor(input@.last()),
                        digits_val(spec_size_digits(input@)) * spec_size_factor(input@.last())
                            <= u64::MAX,
                ;
            }
            Ok(base * factor)
        },
        None => {
            proof {
                if spec_size_digits(input@).len() > 0 && all_digits(spec_size_digits(input@)) {
                    assert(digits_val(spec_size_digits(input@)) <= digits_val(
                        spec_size_digits(input@),
                    ) * spec_size_factor(input@.last())) by (nonlinear_arith)
                        requires
                            spec_size_factor(input@.last()) >= 1,
                    ;
                }
            }
            Err("Failed to parse size".to_owned())
        },
    }
}

/// `c` is `d` up to ASCII case (with `d` already lowercase).
pub open spec fn lower_matches(c: char, d: char) -> bool {
    c == d || ('A' <= c && c <= 'Z' && d as int == c as int + 32)
}

/// The string equals the (lowercase) target up to ASCII case.
pub open spec fn spec_eq_ignore_ascii_case(s: Seq<char>, t: Seq<char>) -> bool {
    s.len() == t.len() && forall|k: int| 0 <= k < s.len() ==> lower_matches(s[k], t[k])
}

fn eq_ignore_ascii_case(s: &str, t: &str) -> (r: bool)
    ensures
        r == spec_eq_ignore_ascii_case(s@, t@),
{
    let n = s.unicode_len();
    if n != t.unicode_len() {
        return false;
    }
    let mut i: usize = 0;
    while i < n
        invariant
            n == s@.len(),
            n == t@.len(),
            i <= n,
            forall|k: int| 0 <= k < i ==> lower_matches(s@[k], t@[k]),
        decreases n - i,
    {
        let c = s.get_char(i);
        let d = t.get_char(i);
        let matches_here = c == d || ('A' <= c && c <= 'Z' && (c as u32) + 32 == d as u32);
        if !matches_here {
            assert(!lower_matches(s@[i as int], t@[i as int]));
            return false;
        }
        i = i + 1;
    }
    true
}

/// Whether a flag value means true: `true`, `1` or `on`, any ASCII case.
pub fn is_true(input: &str) -> (r: bool)
    ensures
        r == (spec_eq_ignore_ascii_case(input@, "true"@) || spec_eq_ignore_ascii_case(
            input@,
            "1"@,
        ) || spec_eq_ignore_ascii_case(input@, "on"@)),
{
    eq_ignore_ascii_case(input, "true") || eq_ignore_ascii_case(input, "1") || eq_ignore_ascii_case(
        input,
        "on",
    )
}

} // verus!
