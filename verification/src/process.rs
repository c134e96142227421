//! Supervision of one container run: how its output lines, its deadlines and its
//! exit are judged. The runner performs the process work; the decisions are here.
use vstd::prelude::*;
use vstd::string::StringExecFns;
use crate::protocol::{Counts, Event};
use crate::terminal::{paint, painted, Tone};
use crate::text::{
    chars_of, contains_chars, has_infix, parse_unsigned, parse_unsigned_chars, repeat_char,
    same_chars, space_pieces, split_spaces, starts_with, string_of, sub_chars, views,
};

verus! {

/// The stream a line of container output came from.
#[derive(Clone, Copy, Debug, PartialEq, Eq, Structural)]
pub enum Stream {
    Stdout,
    Stderr,
}

/// Why a container run did not complete.
#[derive(Debug)]
pub enum Failure {
    Build(String),
    Startup(String),
    Capability(String),
    Harness(String),
    Malformed(String),
    Timeout(String),
    TestTimeout { detail: String, counts: Counts },
    Io(String),
    Cancelled(String),
}

/// The kinds of [`Failure`].
#[derive(Clone, Copy, Debug, PartialEq, Eq, Structural)]
pub enum FailureKind {
    Build,
    Startup,
    Capability,
    Harness,
    Malformed,
    Timeout,
    TestTimeout,
    Io,
    Cancelled,
}

/// The mathematical value of a [`Failure`]; `counts` is zero but for a test timeout.
pub struct FailureModel {
    pub kind: FailureKind,
    pub detail: Seq<char>,
    pub counts: Counts,
}

pub open spec fn no_counts() -> Counts {
    Counts { passed: 0, failed: 0, skipped: 0 }
}

pub open spec fn failure(kind: FailureKind, detail: Seq<char>) -> FailureModel {
    FailureModel { kind, detail, counts: no_counts() }
}

impl View for Failure {
    type V = FailureModel;

    open spec fn view(&self) -> FailureModel {
        match self {
            Failure::Build(d) => failure(FailureKind::Build, d@),
            Failure::Startup(d) => failure(FailureKind::Startup, d@),
            Failure::Capability(d) => failure(FailureKind::Capability, d@),
            Failure::Harness(d) => failure(FailureKind::Harness, d@),
            Failure::Malformed(d) => failure(FailureKind::Malformed, d@),
            Failure::Timeout(d) => failure(FailureKind::Timeout, d@),
            Failure::TestTimeout { detail, counts } => FailureModel {
                kind: FailureKind::TestTimeout,
                detail: detail@,
                counts: *counts,
            },
            Failure::Io(d) => failure(FailureKind::Io, d@),
            Failure::Cancelled(d) => failure(FailureKind::Cancelled, d@),
        }
    }
}

impl Failure {
    /// A failure of `kind` with `detail` (and no counts).
    pub fn new(kind: FailureKind, detail: String) -> (r: Failure)
        ensures
            r@ == failure(kind, detail@),
    {
        match kind {
            FailureKind::Build => Failure::Build(detail),
            FailureKind::Startup => Failure::Startup(detail),
            FailureKind::Capability => Failure::Capability(detail),
            FailureKind::Harness => Failure::Harness(detail),
            FailureKind::Malformed => Failure::Malformed(detail),
            FailureKind::Timeout => Failure::Timeout(detail),
            FailureKind::TestTimeout => Failure::TestTimeout { detail, counts: Counts { passed: 0, failed: 0, skipped: 0 } },
            FailureKind::Io => Failure::Io(detail),
            FailureKind::Cancelled => Failure::Cancelled(detail),
        }
    }
}

/// A run that reached a complete result stream.
#[derive(Debug)]
pub struct Completed {
    pub counts: Counts,
}

/// Receives every accepted protocol record of a run as it arrives.
pub trait RunObserver: Sync {
    fn event(&self, target: &str, event: &Event, protocol_line: &str);
}

/// Where a firmware preparation stands among all targets being prepared.
#[derive(Clone, Copy)]
pub struct PreparationProgress<'a> {
    pub target: &'a str,
    pub index: usize,
    pub total: usize,
}

/// `previous` with `context` appended to its detail; an I/O failure of `context` when there is none.
pub open spec fn with_context(previous: Option<FailureModel>, context: Seq<char>) -> FailureModel {
    match previous {
        None => failure(FailureKind::Io, context),
        Some(f) => FailureModel { detail: f.detail + "; "@ + context, ..f },
    }
}

/// `previous` with `context` appended to its detail; an I/O failure of `context` when there is none.
pub fn add_context(previous: Option<Failure>, context: &str) -> (r: Failure)
    ensures
        r@ == with_context(
            match previous {
                Some(f) => Some(f@),
                None => None,
            },
            context@,
        ),
{
    let previous = match previous {
        None => return Failure::Io(String::from_str(context)),
        Some(p) => p,
    };
    let join = |detail: String| -> (r: String)
        ensures
            r@ == detail@ + "; "@ + context@,
        {
            let mut d = detail;
            d.append("; ");
            d.append(context);
            d
        };
    match previous {
        Failure::Build(detail) => Failure::Build(join(detail)),
        Failure::Startup(detail) => Failure::Startup(join(detail)),
        Failure::Capability(detail) => Failure::Capability(join(detail)),
        Failure::Harness(detail) => Failure::Harness(join(detail)),
        Failure::Malformed(detail) => Failure::Malformed(join(detail)),
        Failure::Timeout(detail) => Failure::Timeout(join(detail)),
        Failure::TestTimeout { detail, counts } => Failure::TestTimeout { detail: join(detail), counts },
        Failure::Io(detail) => Failure::Io(join(detail)),
        Failure::Cancelled(detail) => Failure::Cancelled(join(detail)),
    }
}

/// The step, step count and name of a `VMSA-INFRA BUILD_STEP index=I total=T name=N`
/// line: `I` and `T` read as `usize` values with `1 <= I <= T`, and `N` non-empty.
pub open spec fn build_step_spec(text: Seq<char>) -> Option<(nat, nat, Seq<char>)> {
    let prefix = "VMSA-INFRA BUILD_STEP "@;
    if !prefix.is_prefix_of(text) {
        None
    } else {
        let fields = space_pieces(text.skip(prefix.len() as int));
        if fields.len() != 3 || !"index="@.is_prefix_of(fields[0]) || !"total="@.is_prefix_of(fields[1])
            || !"name="@.is_prefix_of(fields[2]) {
            None
        } else {
            match (
                parse_unsigned(fields[0].skip(6), usize::MAX as nat),
                parse_unsigned(fields[1].skip(6), usize::MAX as nat),
            ) {
                (Some(index), Some(total)) => {
                    let name = fields[2].skip(5);
                    if index == 0 || index > total || total == 0 || name.len() == 0 {
                        None
                    } else {
                        Some((index, total, name))
                    }
                },
                _ => None,
            }
        }
    }
}

/// Reads a structured build step line.
pub fn parse_build_step(text: &str) -> (r: Option<(usize, usize, String)>)
    ensures
        match build_step_spec(text@) {
            Some((i, t, n)) => r is Some && r->Some_0.0 == i && r->Some_0.1 == t && r->Some_0.2@ == n,
            None => r is None,
        },
{
    let chars = chars_of(text);
    let prefix = chars_of("VMSA-INFRA BUILD_STEP ");
    if !starts_with(chars.as_slice(), prefix.as_slice()) {
        return None;
    }
    let rest = sub_chars(chars.as_slice(), prefix.len(), chars.len());
    assert(rest@ =~= text@.skip(prefix@.len() as int));
    let fields = split_spaces(rest.as_slice());
    let ghost fs = views(fields@);
    if fields.len() != 3 {
        return None;
    }
    assert(fs[0] == fields@[0]@ && fs[1] == fields@[1]@ && fs[2] == fields@[2]@);
    let index_key = chars_of("index=");
    let total_key = chars_of("total=");
    let name_key = chars_of("name=");
    if !starts_with(fields[0].as_slice(), index_key.as_slice()) || !starts_with(
        fields[1].as_slice(),
        total_key.as_slice(),
    ) || !starts_with(fields[2].as_slice(), name_key.as_slice()) {
        return None;
    }
    assert(index_key@.len() == 6 && total_key@.len() == 6 && name_key@.len() == 5) by {
        reveal_strlit("index=");
        reveal_strlit("total=");
        reveal_strlit("name=");
    }
    let index_text = sub_chars(fields[0].as_slice(), 6, fields[0].len());
    let total_text = sub_chars(fields[1].as_slice(), 6, fields[1].len());
    let name = sub_chars(fields[2].as_slice(), 5, fields[2].len());
    assert(index_text@ =~= fs[0].skip(6));
    assert(total_text@ =~= fs[1].skip(6));
    assert(name@ =~= fs[2].skip(5));
    let index = match parse_unsigned_chars(index_text.as_slice(), usize::MAX as u64) {
        Some(v) => v as usize,
        None => return None,
    };
    let total = match parse_unsigned_chars(total_text.as_slice(), usize::MAX as u64) {
        Some(v) => v as usize,
        None => return None,
    };
    if index == 0 || index > total || total == 0 || name.len() == 0 {
        return None;
    }
    Some((index, total, string_of(name.as_slice())))
}

/// How many of `width` cells a bar filled to `done` of `total` shows.
pub open spec fn filled_cells(done: nat, total: nat, width: nat) -> nat {
    let filled = if total == 0 {
        0
    } else {
        (if done * width > usize::MAX { usize::MAX as nat } else { done * width }) / total
    };
    if filled > width { width } else { filled }
}

/// `[###---]`: a bar of `width` cells, filled in proportion to `done` of `total`.
pub open spec fn progress_bar_text(done: nat, total: nat, width: nat, color: bool) -> Seq<char> {
    let filled = filled_cells(done, total, width);
    seq!['['] + painted(color, Tone::Success, Seq::new(filled, |i: int| '#'))
        + painted(color, Tone::Muted, Seq::new((width - filled) as nat, |i: int| '-')) + seq![']']
}

/// A progress bar of `width` cells filled in proportion to `done` of `total`, at most full.
pub fn progress_bar(done: usize, total: usize, width: usize, color: bool) -> (r: String)
    ensures
        r@ == progress_bar_text(done as nat, total as nat, width as nat, color),
{
    let filled = if total == 0 {
        0
    } else {
        let product = if width != 0 && done > usize::MAX / width {
            assert(done * width > usize::MAX) by (nonlinear_arith)
                requires
                    width > 0,
                    done > usize::MAX / width,
            {}
            usize::MAX
        } else {
            assert(done * width <= usize::MAX) by (nonlinear_arith)
                requires
                    width == 0 || done <= usize::MAX / width,
            {}
            done * width
        };
        product / total
    };
    let filled = if filled > width { width } else { filled };
    let filled_text = repeat_char('#', filled);
    let empty_text = repeat_char('-', width - filled);
    let mut r = String::from_str("[");
    r.append(paint(color, Tone::Success, filled_text.as_str()).as_str());
    r.append(paint(color, Tone::Muted, empty_text.as_str()).as_str());
    r.append("]");
    proof { reveal_strlit("["); reveal_strlit("]"); }
    assert(r@ =~= progress_bar_text(done as nat, total as nat, width as nat, color));
    r
}

/// A progress bar scales and clamps: it shows `width` cells, none filled
/// without a total, the share of `done` in `total` rounded down while the work
/// is under way, and every cell once it is done.
pub proof fn lemma_progress_bar_scales_and_clamps(done: nat, total: nat, width: nat, color: bool)
    requires
        done * width <= usize::MAX,
    ensures
        filled_cells(done, total, width) <= width,
        !color ==> progress_bar_text(done, total, width, color).len() == width + 2,
        total == 0 ==> filled_cells(done, total, width) == 0,
        0 < total && done <= total ==> filled_cells(done, total, width) == done * width / total,
        0 < total && total <= done ==> filled_cells(done, total, width) == width,
{
    if 0 < total && done <= total {
        assert(done * width / total <= width) by (nonlinear_arith)
            requires
                0 < total,
                done <= total,
        {
            assert(done * width <= total * width);
        }
    }
    if 0 < total && total <= done {
        assert(done * width / total >= width) by (nonlinear_arith)
            requires
                0 < total,
                total <= done,
        {
            assert(done * width >= total * width);
        }
    }
}

/// The colour in which a line of container output is shown, if any.
pub open spec fn line_tone(line: Seq<char>) -> Option<Tone> {
    if "@@VMSA PASS"@.is_prefix_of(line) {
        Some(Tone::Success)
    } else if "@@VMSA FAIL"@.is_prefix_of(line) || "@@VMSA INFRA"@.is_prefix_of(line)
        || "VMSA-INFRA HARNESS_FAILURE"@.is_prefix_of(line) || has_infix(line, " PANIC "@) {
        Some(Tone::Failure)
    } else if "@@VMSA SKIP"@.is_prefix_of(line) || "VMSA-INFRA CAPABILITY"@.is_prefix_of(line) {
        Some(Tone::Skipped)
    } else if "@@VMSA END"@.is_prefix_of(line) {
        Some(if has_infix(line, " failed=0"@) { Tone::Success } else { Tone::Failure })
    } else if "@@VMSA RUN"@.is_prefix_of(line) || has_infix(line, "FVP_START"@) {
        Some(Tone::Active)
    } else if "VMSA-INFRA PHASE"@.is_prefix_of(line) || "@@VMSA BEGIN"@.is_prefix_of(line)
        || "@@VMSA CAP"@.is_prefix_of(line) {
        Some(Tone::Muted)
    } else {
        None
    }
}

fn begins(s: &Vec<char>, prefix: &str) -> (r: bool)
    ensures
        r == prefix@.is_prefix_of(s@),
{
    starts_with(s.as_slice(), chars_of(prefix).as_slice())
}

fn holds(s: &Vec<char>, needle: &str) -> (r: bool)
    ensures
        r == has_infix(s@, needle@),
{
    contains_chars(s.as_slice(), chars_of(needle).as_slice())
}

/// The colour in which a line of container output is shown, if any.
pub fn terminal_tone(line: &str) -> (r: Option<Tone>)
    ensures
        r == line_tone(line@),
{
    let l = chars_of(line);
    if begins(&l, "@@VMSA PASS") {
        Some(Tone::Success)
    } else if begins(&l, "@@VMSA FAIL") || begins(&l, "@@VMSA INFRA") || begins(&l, "VMSA-INFRA HARNESS_FAILURE")
        || holds(&l, " PANIC ") {
        Some(Tone::Failure)
    } else if begins(&l, "@@VMSA SKIP") || begins(&l, "VMSA-INFRA CAPABILITY") {
        Some(Tone::Skipped)
    } else if begins(&l, "@@VMSA END") {
        Some(if holds(&l, " failed=0") { Tone::Success } else { Tone::Failure })
    } else if begins(&l, "@@VMSA RUN") || holds(&l, "FVP_START") {
        Some(Tone::Active)
    } else if begins(&l, "VMSA-INFRA PHASE") || begins(&l, "@@VMSA BEGIN") || begins(&l, "@@VMSA CAP") {
        Some(Tone::Muted)
    } else {
        None
    }
}


/// The longest line of container output, in bytes.
pub const PROCESS_LINE_LIMIT: usize = 64 * 1024;

/// `line` without one trailing carriage return.
pub open spec fn without_cr_bytes(line: Seq<u8>) -> Seq<u8> {
    if line.len() > 0 && line.last() == 13u8 { line.drop_last() } else { line }
}

/// Index of the first line feed in `s`, or its length when it holds none.
pub open spec fn newline_at(s: Seq<u8>) -> nat
    decreases s.len(),
{
    if s.len() == 0 {
        0
    } else if s[0] == 10u8 {
        0
    } else {
        1 + newline_at(s.drop_first())
    }
}

proof fn lemma_newline_at(s: Seq<u8>)
    ensures
        newline_at(s) <= s.len(),
        forall|j: int| 0 <= j < newline_at(s) ==> s[j] != 10u8,
        newline_at(s) < s.len() ==> s[newline_at(s) as int] == 10u8,
    decreases s.len(),
{
    if s.len() > 0 && s[0] != 10u8 {
        lemma_newline_at(s.drop_first());
        assert forall|j: int| 0 <= j < newline_at(s) implies s[j] != 10u8 by {
            if j > 0 {
                assert(s[j] == s.drop_first()[j - 1]);
            }
        }
    }
}

/// What one buffer of output does to a line being read.
#[derive(Debug)]
pub enum Absorbed {
    /// The whole buffer belongs to the line, which goes on.
    Partial(usize),
    /// A line ended: so many bytes of the buffer were used, and the line's bytes.
    Line(usize, Vec<u8>),
    /// The line exceeds the limit; reading stops.
    TooLong,
}

/// Splits a byte stream into lines of at most [`PROCESS_LINE_LIMIT`] bytes.
pub struct LineSplitter {
    line: Vec<u8>,
    finished: bool,
}

pub enum AbsorbedModel {
    Partial(nat),
    Line(nat, Seq<u8>),
    TooLong,
}

/// The line so far and whether the splitter stopped.
pub struct SplitterModel {
    pub line: Seq<u8>,
    pub finished: bool,
}

impl View for LineSplitter {
    type V = SplitterModel;

    closed spec fn view(&self) -> SplitterModel {
        SplitterModel { line: self.line@, finished: self.finished }
    }
}

/// What the buffer `available` (not empty) does to the line `line`: the part up
/// to the first line feed joins the line, unless the line would exceed the
/// limit; a line feed ends the line, which loses one trailing carriage return.
pub open spec fn absorb_spec(line: Seq<u8>, available: Seq<u8>) -> (SplitterModel, AbsorbedModel) {
    let content = newline_at(available);
    if line.len() + content > PROCESS_LINE_LIMIT {
        (SplitterModel { line, finished: true }, AbsorbedModel::TooLong)
    } else if content < available.len() {
        (
            SplitterModel { line: seq![], finished: false },
            AbsorbedModel::Line(content + 1, without_cr_bytes(line + available.take(content as int))),
        )
    } else {
        (SplitterModel { line: line + available, finished: false }, AbsorbedModel::Partial(available.len()))
    }
}

/// A splitter never holds or hands out a line longer than the limit, and a
/// line ends at the first line feed of the buffer, which it consumes.
pub proof fn lemma_splitter_lines_bounded(line: Seq<u8>, available: Seq<u8>)
    requires
        line.len() <= PROCESS_LINE_LIMIT,
    ensures
        absorb_spec(line, available).0.line.len() <= PROCESS_LINE_LIMIT,
        absorb_spec(line, available).1 matches AbsorbedModel::Line(n, bytes) ==> {
            &&& bytes.len() <= PROCESS_LINE_LIMIT
            &&& 1 <= n <= available.len()
            &&& available[n - 1] == 10u8
            &&& forall|i: int| 0 <= i < n - 1 ==> available[i] != 10u8
        },
{
    lemma_newline_at(available);
}

impl LineSplitter {
    pub fn new() -> (r: Self)
        ensures
            r@ == (SplitterModel { line: seq![], finished: false }),
    {
        let r = LineSplitter { line: Vec::new(), finished: false };
        assert(r@.line =~= Seq::<u8>::empty());
        r
    }

    /// Whether a line exceeded the limit, after which no more lines come.
    pub fn finished(&self) -> (r: bool)
        ensures
            r == self@.finished,
    {
        self.finished
    }

    /// Takes in the next buffer of output, which is not empty.
    pub fn absorb(&mut self, available: &[u8]) -> (r: Absorbed)
        requires
            available@.len() > 0,
            !old(self)@.finished,
        ensures
            (final(self)@, match r {
                Absorbed::Partial(n) => AbsorbedModel::Partial(n as nat),
                Absorbed::Line(n, bytes) => AbsorbedModel::Line(n as nat, bytes@),
                Absorbed::TooLong => AbsorbedModel::TooLong,
            }) == absorb_spec(old(self)@.line, available@),
    {
        proof { lemma_newline_at(available@); }
        let mut content: usize = 0;
        while content < available.len() && available[content] != 10u8
            invariant
                content <= available@.len(),
                content <= newline_at(available@),
                forall|j: int| 0 <= j < content ==> available@[j] != 10u8,
            decreases available@.len() - content,
        {
            proof { lemma_newline_at(available@); }
            content = content + 1;
        }
        assert(content == newline_at(available@));
        if self.line.len() > PROCESS_LINE_LIMIT || content > PROCESS_LINE_LIMIT - self.line.len() {
            self.finished = true;
            return Absorbed::TooLong;
        }
        let mut k: usize = 0;
        let ghost start = self.line@;
        while k < content
            invariant
                k <= content <= available@.len(),
                self.line@ == start + available@.take(k as int),
                !self.finished,
            decreases content - k,
        {
            self.line.push(available[k]);
            assert(start + available@.take(k + 1) =~= (start + available@.take(k as int)).push(available@[k as int]));
            k = k + 1;
        }
        if content < available.len() {
            let mut line = Vec::new();
            std::mem::swap(&mut line, &mut self.line);
            let ghost whole = line@;
            assert(whole == start + available@.take(content as int));
            if line.len() > 0 && line[line.len() - 1] == 13u8 {
                line.pop();
            }
            assert(line@ =~= without_cr_bytes(whole));
            assert(self.line@ =~= Seq::<u8>::empty());
            Absorbed::Line(content + 1, line)
        } else {
            assert(available@.take(k as int) =~= available@);
            Absorbed::Partial(available.len())
        }
    }

    /// The output ended: the unfinished line, if it holds any byte.
    pub fn end(&mut self) -> (r: Option<Vec<u8>>)
        ensures
            final(self)@.finished == old(self)@.finished,
            final(self)@.line == Seq::<u8>::empty(),
            match r {
                Some(bytes) => old(self)@.line.len() > 0 && bytes@ == without_cr_bytes(old(self)@.line),
                None => old(self)@.line.len() == 0,
            },
    {
        if self.line.len() == 0 {
            return None;
        }
        let mut line = Vec::new();
        std::mem::swap(&mut line, &mut self.line);
        if line[line.len() - 1] == 13u8 {
            line.pop();
        }
        assert(self.line@ =~= Seq::<u8>::empty());
        Some(line)
    }
}

/// The error of a line that exceeds the limit.
pub fn line_too_long_message() -> (r: String)
    ensures
        r@ == "process output line exceeds 65536-byte limit"@,
{
    String::from_str("process output line exceeds 65536-byte limit")
}

/// How far the firmware preparation of one target has come: the current step
/// and the number of steps of the current phase.
pub struct Preparation {
    detail_step: usize,
    detail_total: usize,
}

/// What the runner does for a line of preparation output.
pub struct PreparationUpdate {
    /// Redraw the progress display with this step, step count and label.
    pub render: Option<(usize, usize, String)>,
    /// Show the line itself.
    pub echo: bool,
    /// Restart the preparation deadline.
    pub extend_deadline: bool,
}

/// `s` with every `-` written as a space.
pub open spec fn dashes_as_spaces(s: Seq<char>) -> Seq<char> {
    Seq::new(s.len(), |i: int| if s[i] == '-' { ' ' } else { s[i] })
}

/// The step and step count after a preparation line, the redraw it asks for,
/// whether the line is shown, and whether it restarts the deadline.
pub open spec fn preparation_step(step: nat, total: nat, text: Seq<char>, stderr_is_terminal: bool)
    -> (nat, nat, Option<(nat, nat, Seq<char>)>, bool, bool)
{
    let extend = text == "VMSA-INFRA PHASE prepare-start"@ || text == "VMSA-INFRA PHASE build-start"@
        || text == "VMSA-INFRA PHASE build-complete"@;
    if text == "VMSA-INFRA PHASE prepare-start"@ {
        (step, total, Some((0, 1, "preparing sources"@)), false, extend)
    } else if text == "VMSA-INFRA PHASE prepare-complete"@ {
        (step, total, Some((1, 1, "sources prepared"@)), false, extend)
    } else if text == "VMSA-INFRA PHASE build-start"@ {
        (step, total, Some((0, 1, "initializing build"@)), false, extend)
    } else if text == "VMSA-INFRA PHASE build-complete"@ {
        (step, total, Some((step, total, "build steps complete"@)), false, extend)
    } else if text == "VMSA-INFRA PHASE package-complete"@ {
        (total, total, Some((total, total, "firmware packaged"@)), false, extend)
    } else if "VMSA-INFRA PHASE firmware-cache-hit "@.is_prefix_of(text) {
        (1, 1, Some((1, 1, "firmware cache hit"@)), false, extend)
    } else if "VMSA-INFRA BUILD_STEP "@.is_prefix_of(text) {
        match build_step_spec(text) {
            Some((index, count, name)) => (
                (index - 1) as nat,
                count,
                Some(((index - 1) as nat, count, "building "@ + dashes_as_spaces(name))),
                false,
                extend,
            ),
            None => (step, total, None, true, extend),
        }
    } else {
        (step, total, None, !stderr_is_terminal, extend)
    }
}

impl Preparation {
    pub closed spec fn step_count(&self) -> (nat, nat) {
        (self.detail_step as nat, self.detail_total as nat)
    }

    /// Preparation before any output: step 0 of 1.
    pub fn new() -> (r: Self)
        ensures
            r.step_count() == (0nat, 1nat),
    {
        Preparation { detail_step: 0, detail_total: 1 }
    }

    /// The step and step count shown when preparation ends, successfully when `ok`.
    pub fn final_step(&self, ok: bool) -> (r: (usize, usize))
        ensures
            r.0 == (if ok { self.step_count().1 } else { self.step_count().0 }),
            r.1 == self.step_count().1,
    {
        (if ok { self.detail_total } else { self.detail_step }, self.detail_total)
    }

    /// A line of preparation output; `stderr_is_terminal` tells whether plain
    /// lines are hidden behind the progress display.
    pub fn on_line(&mut self, text: &str, stderr_is_terminal: bool) -> (r: PreparationUpdate)
        ensures
            ({
                let (step, total, render, echo, extend) = preparation_step(
                    old(self).step_count().0,
                    old(self).step_count().1,
                    text@,
                    stderr_is_terminal,
                );
                &&& final(self).step_count() == (step, total)
                &&& match render {
                    Some((a, b, label)) => r.render is Some && r.render->Some_0.0 == a && r.render->Some_0.1 == b
                        && r.render->Some_0.2@ == label,
                    None => r.render is None,
                }
                &&& r.echo == echo
                &&& r.extend_deadline == extend
            }),
    {
        let l = chars_of(text);
        let extend = same_chars(l.as_slice(), chars_of("VMSA-INFRA PHASE prepare-start").as_slice())
            || same_chars(l.as_slice(), chars_of("VMSA-INFRA PHASE build-start").as_slice())
            || same_chars(l.as_slice(), chars_of("VMSA-INFRA PHASE build-complete").as_slice());
        let fixed = |step: usize, total: usize, label: &str, extend: bool| -> (u: PreparationUpdate)
            ensures
                u.render is Some && u.render->Some_0.0 == step && u.render->Some_0.1 == total
                    && u.render->Some_0.2@ == label@,
                !u.echo,
                u.extend_deadline == extend,
            { PreparationUpdate { render: Some((step, total, String::from_str(label))), echo: false, extend_deadline: extend } };
        if same_chars(l.as_slice(), chars_of("VMSA-INFRA PHASE prepare-start").as_slice()) {
            fixed(0, 1, "preparing sources", extend)
        } else if same_chars(l.as_slice(), chars_of("VMSA-INFRA PHASE prepare-complete").as_slice()) {
            fixed(1, 1, "sources prepared", extend)
        } else if same_chars(l.as_slice(), chars_of("VMSA-INFRA PHASE build-start").as_slice()) {
            fixed(0, 1, "initializing build", extend)
        } else if same_chars(l.as_slice(), chars_of("VMSA-INFRA PHASE build-complete").as_slice()) {
            fixed(self.detail_step, self.detail_total, "build steps complete", extend)
        } else if same_chars(l.as_slice(), chars_of("VMSA-INFRA PHASE package-complete").as_slice()) {
            self.detail_step = self.detail_total;
            fixed(self.detail_step, self.detail_total, "firmware packaged", extend)
        } else if starts_with(l.as_slice(), chars_of("VMSA-INFRA PHASE firmware-cache-hit ").as_slice()) {
            self.detail_step = 1;
            self.detail_total = 1;
            fixed(1, 1, "firmware cache hit", extend)
        } else if starts_with(l.as_slice(), chars_of("VMSA-INFRA BUILD_STEP ").as_slice()) {
            match parse_build_step(text) {
                Some((index, total, name)) => {
                    self.detail_step = index - 1;
                    self.detail_total = total;
                    let n = chars_of(name.as_str());
                    let mut label = String::from_str("building ");
                    let mut i: usize = 0;
                    let ghost head = label@;
                    while i < n.len()
                        invariant
                            i <= n@.len(),
                            label@ == head + dashes_as_spaces(n@).take(i as int),
                        decreases n@.len() - i,
                    {
                        crate::text::push_char(&mut label, if n[i] == '-' { ' ' } else { n[i] });
                        assert(label@ =~= head + dashes_as_spaces(n@).take(i + 1));
                        i = i + 1;
                    }
                    assert(dashes_as_spaces(n@).take(i as int) =~= dashes_as_spaces(n@));
                    PreparationUpdate { render: Some((index - 1, total, label)), echo: false, extend_deadline: extend }
                },
                None => PreparationUpdate { render: None, echo: true, extend_deadline: extend },
            }
        } else {
            PreparationUpdate { render: None, echo: !stderr_is_terminal, extend_deadline: extend }
        }
    }
}

/// The preparation display never shows more steps done than the phase has,
/// and a phase always has a step.
pub proof fn lemma_preparation_step_bounded(step: nat, total: nat, text: Seq<char>, stderr_is_terminal: bool)
    requires
        step <= total,
        total >= 1,
    ensures
        ({
            let (s, t, render, echo, extend) = preparation_step(step, total, text, stderr_is_terminal);
            &&& s <= t && t >= 1
            &&& render matches Some((a, b, label)) ==> a <= b && b >= 1
        }),
{
}

/// How many targets the overall preparation bar shows as done.
pub open spec fn overall_done(index: nat, phase: nat, phase_total: nat, finished: bool, failed: bool) -> nat {
    if finished && !failed && phase == phase_total { index } else { (index - 1) as nat }
}

pub open spec fn label_tone(phase: nat, phase_total: nat, finished: bool, failed: bool) -> Tone {
    if failed { Tone::Failure } else if finished && phase == phase_total { Tone::Success } else { Tone::Active }
}

/// The two lines of the preparation display: all targets, then the current one.
pub open spec fn preparation_lines_spec(
    target: Seq<char>,
    index: nat,
    total: nat,
    phase: nat,
    phase_total: nat,
    label: Seq<char>,
    finished: bool,
    failed: bool,
    color: bool,
) -> (Seq<char>, Seq<char>) {
    let done = overall_done(index, phase, phase_total, finished, failed);
    (
        "firmware "@ + progress_bar_text(done, total, 24, color) + " "@ + crate::text::decimal(done) + "/"@
            + crate::text::decimal(total),
        "  "@ + painted(color, Tone::Active, crate::text::pad_right(target, 14)) + " "@ + progress_bar_text(
            phase,
            phase_total,
            18,
            color,
        ) + " "@ + crate::text::decimal(phase) + "/"@ + crate::text::decimal(phase_total) + " "@ + painted(
            color,
            label_tone(phase, phase_total, finished, failed),
            label,
        ),
    )
}

/// The two lines of the preparation display for `progress` (whose index counts from one;
/// it may be zero only for a preparation that finished all its steps).
pub fn preparation_lines(
    progress: PreparationProgress<'_>,
    phase: usize,
    phase_total: usize,
    label: &str,
    finished: bool,
    failed: bool,
    color: bool,
) -> (r: (String, String))
    requires
        progress.index >= 1 || (finished && !failed && phase == phase_total),
    ensures
        (r.0@, r.1@) == preparation_lines_spec(
            progress.target@,
            progress.index as nat,
            progress.total as nat,
            phase as nat,
            phase_total as nat,
            label@,
            finished,
            failed,
            color,
        ),
{
    let done = if finished && !failed && phase == phase_total { progress.index } else { progress.index - 1 };
    let overall = progress_bar(done, progress.total, 24, color);
    let current = progress_bar(phase, phase_total, 18, color);
    let mut padded = String::new();
    crate::text::push_padded(&mut padded, chars_of(progress.target).as_slice(), 14);
    let target = paint(color, Tone::Active, padded.as_str());
    let tone = if failed { Tone::Failure } else if finished && phase == phase_total { Tone::Success } else { Tone::Active };
    let painted_label = paint(color, tone, label);
    let mut first = String::from_str("firmware ");
    first.append(overall.as_str());
    first.append(" ");
    crate::text::push_decimal(&mut first, done as u64);
    first.append("/");
    crate::text::push_decimal(&mut first, progress.total as u64);
    let mut second = String::from_str("  ");
    second.append(target.as_str());
    second.append(" ");
    second.append(current.as_str());
    second.append(" ");
    crate::text::push_decimal(&mut second, phase as u64);
    second.append("/");
    crate::text::push_decimal(&mut second, phase_total as u64);
    second.append(" ");
    second.append(painted_label.as_str());
    (first, second)
}

/// The outcome of a preparation container that exited: success, or a build
/// failure naming how it exited.
pub fn preparation_exit(success: bool, status: &str) -> (r: Result<(), Failure>)
    ensures
        success ==> r is Ok,
        !success ==> r is Err && r->Err_0@ == failure(
            FailureKind::Build,
            "firmware preparation container exited with "@ + status@,
        ),
{
    if success {
        Ok(())
    } else {
        let mut m = String::from_str("firmware preparation container exited with ");
        m.append(status);
        Err(Failure::Build(m))
    }
}
/// What the supervisor self-check expects of one scripted run.
#[derive(Debug)]
pub enum Expectation {
    /// The run completes with these passes and failures, and these skips when given.
    Completes { passed: u32, failed: u32, skipped: Option<u32> },
    /// The run fails with a failure of `kind` whose detail holds `holding`.
    Fails { kind: FailureKind, holding: String },
    /// The run ends with a test timeout whose detail holds `holding` and whose
    /// counts hold `failed` failures.
    TimesOutTest { holding: String, failed: u32 },
}

pub enum ExpectationModel {
    Completes { passed: u32, failed: u32, skipped: Option<u32> },
    Fails { kind: FailureKind, holding: Seq<char> },
    TimesOutTest { holding: Seq<char>, failed: u32 },
}

impl View for Expectation {
    type V = ExpectationModel;

    open spec fn view(&self) -> ExpectationModel {
        match self {
            Expectation::Completes { passed, failed, skipped } => ExpectationModel::Completes {
                passed: *passed,
                failed: *failed,
                skipped: *skipped,
            },
            Expectation::Fails { kind, holding } => ExpectationModel::Fails { kind: *kind, holding: holding@ },
            Expectation::TimesOutTest { holding, failed } => ExpectationModel::TimesOutTest {
                holding: holding@,
                failed: *failed,
            },
        }
    }
}

/// The counts of a completed run, or its failure.
pub open spec fn run_outcome(outcome: Result<Completed, Failure>) -> Result<Counts, FailureModel> {
    match outcome {
        Ok(c) => Ok(c.counts),
        Err(f) => Err(f@),
    }
}

/// Whether a run that ended with `outcome` is what `e` expects.
pub open spec fn meets(e: ExpectationModel, outcome: Result<Counts, FailureModel>) -> bool {
    match e {
        ExpectationModel::Completes { passed, failed, skipped } => match outcome {
            Ok(c) => c.passed == passed && c.failed == failed && match skipped {
                Some(k) => c.skipped == k,
                None => true,
            },
            Err(_) => false,
        },
        ExpectationModel::Fails { kind, holding } => match outcome {
            Ok(_) => false,
            Err(f) => f.kind == kind && has_infix(f.detail, holding),
        },
        ExpectationModel::TimesOutTest { holding, failed } => match outcome {
            Ok(_) => false,
            Err(f) => f.kind == FailureKind::TestTimeout && has_infix(f.detail, holding) && f.counts.failed == failed,
        },
    }
}

fn failure_detail(f: &Failure) -> (r: &String)
    ensures
        r@ == f@.detail,
{
    match f {
        Failure::Build(d) => d,
        Failure::Startup(d) => d,
        Failure::Capability(d) => d,
        Failure::Harness(d) => d,
        Failure::Malformed(d) => d,
        Failure::Timeout(d) => d,
        Failure::TestTimeout { detail, .. } => detail,
        Failure::Io(d) => d,
        Failure::Cancelled(d) => d,
    }
}

fn failure_kind(f: &Failure) -> (r: FailureKind)
    ensures
        r == f@.kind,
{
    match f {
        Failure::Build(_) => FailureKind::Build,
        Failure::Startup(_) => FailureKind::Startup,
        Failure::Capability(_) => FailureKind::Capability,
        Failure::Harness(_) => FailureKind::Harness,
        Failure::Malformed(_) => FailureKind::Malformed,
        Failure::Timeout(_) => FailureKind::Timeout,
        Failure::TestTimeout { .. } => FailureKind::TestTimeout,
        Failure::Io(_) => FailureKind::Io,
        Failure::Cancelled(_) => FailureKind::Cancelled,
    }
}

fn failure_counts(f: &Failure) -> (r: Counts)
    ensures
        r == f@.counts,
{
    match f {
        Failure::TestTimeout { counts, .. } => *counts,
        _ => Counts { passed: 0, failed: 0, skipped: 0 },
    }
}

/// Whether a self-check run that ended with `outcome` is what `expected` expects.
pub fn outcome_meets(expected: &Expectation, outcome: &Result<Completed, Failure>) -> (r: bool)
    ensures
        r == meets(expected@, run_outcome(*outcome)),
{
    match expected {
        Expectation::Completes { passed, failed, skipped } => match outcome {
            Ok(c) => c.counts.passed == *passed && c.counts.failed == *failed && match skipped {
                Some(k) => c.counts.skipped == *k,
                None => true,
            },
            Err(_) => false,
        },
        Expectation::Fails { kind, holding } => match outcome {
            Ok(_) => false,
            Err(f) => failure_kind(f) == *kind && contains_chars(
                chars_of(failure_detail(f).as_str()).as_slice(),
                chars_of(holding.as_str()).as_slice(),
            ),
        },
        Expectation::TimesOutTest { holding, failed } => match outcome {
            Ok(_) => false,
            Err(f) => failure_kind(f) == FailureKind::TestTimeout && contains_chars(
                chars_of(failure_detail(f).as_str()).as_slice(),
                chars_of(holding.as_str()).as_slice(),
            ) && failure_counts(f).failed == *failed,
        },
    }
}
} // verus!
