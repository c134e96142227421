//! The summary table of a test run: one row per target, then the total.
use vstd::prelude::*;
use vstd::string::StringExecFns;
use crate::args::{all_targets, target_name, Target};
use crate::protocol::Counts;
use crate::terminal::{
    lemma_strips_concat, lemma_strips_painted, lemma_strips_plain, lemma_strips_whole, no_escape, paint, painted,
    strip_ansi, strips_to, Tone,
};
use crate::text::{chars_of, decimal, decimal_text, pad_right, push_padded, same_chars};

verus! {

/// The outcome of one boot of one target.
#[derive(Debug)]
pub struct TargetReport {
    pub target: Target,
    pub counts: Option<Counts>,
    pub outcome: &'static str,
    pub detail: Option<String>,
}

/// The mathematical value of a [`TargetReport`].
pub struct ReportModel {
    pub target: Target,
    pub counts: Option<Counts>,
    pub outcome: Seq<char>,
    pub detail: Option<Seq<char>>,
}

impl View for TargetReport {
    type V = ReportModel;

    open spec fn view(&self) -> ReportModel {
        ReportModel {
            target: self.target,
            counts: self.counts,
            outcome: self.outcome@,
            detail: match self.detail {
                Some(d) => Some(d@),
                None => None,
            },
        }
    }
}

pub open spec fn report_views(rs: Seq<TargetReport>) -> Seq<ReportModel> {
    rs.map_values(|r: TargetReport| r@)
}

/// How bad an outcome is: the row of a target shows its worst boot.
pub open spec fn rank_of(outcome: Seq<char>) -> u8 {
    if outcome == "passed"@ {
        0
    } else if outcome == "unsupported"@ {
        1
    } else if outcome == "failed"@ {
        2
    } else if outcome == "invalid"@ {
        3
    } else if outcome == "timeout"@ {
        4
    } else if outcome == "malformed"@ || outcome == "harness-error"@ {
        5
    } else if outcome == "startup-error"@ {
        6
    } else if outcome == "build-error"@ {
        7
    } else if outcome == "cancelled"@ {
        8
    } else {
        9
    }
}

pub open spec fn tone_of_outcome(outcome: Seq<char>) -> Tone {
    if outcome == "passed"@ {
        Tone::Success
    } else if outcome == "unsupported"@ {
        Tone::Skipped
    } else {
        Tone::Failure
    }
}

pub open spec fn tone_of_count(count: u32, nonzero: Tone) -> Tone {
    if count == 0 { Tone::Muted } else { nonzero }
}

pub open spec fn clamp_u32(n: int) -> u32 {
    if n > u32::MAX { u32::MAX } else { n as u32 }
}

pub open spec fn saturating_sum(a: Counts, b: Counts) -> Counts {
    Counts {
        passed: clamp_u32(a.passed + b.passed),
        failed: clamp_u32(a.failed + b.failed),
        skipped: clamp_u32(a.skipped + b.skipped),
    }
}

pub open spec fn counts_or_zero(c: Option<Counts>) -> Counts {
    match c {
        Some(c) => c,
        None => Counts { passed: 0, failed: 0, skipped: 0 },
    }
}

/// How many reports are for target `t`.
pub open spec fn group_size(rs: Seq<ReportModel>, t: Target) -> nat
    decreases rs.len(),
{
    if rs.len() == 0 {
        0
    } else {
        group_size(rs.drop_last(), t) + if rs.last().target == t { 1nat } else { 0nat }
    }
}

/// The counts of the reports for target `t`, added with saturation.
pub open spec fn group_counts(rs: Seq<ReportModel>, t: Target) -> Counts
    decreases rs.len(),
{
    if rs.len() == 0 {
        Counts { passed: 0, failed: 0, skipped: 0 }
    } else if rs.last().target == t {
        saturating_sum(group_counts(rs.drop_last(), t), counts_or_zero(rs.last().counts))
    } else {
        group_counts(rs.drop_last(), t)
    }
}

/// The worst report for target `t`; of equally bad ones, the last.
pub open spec fn worst_report(rs: Seq<ReportModel>, t: Target) -> Option<ReportModel>
    decreases rs.len(),
{
    if rs.len() == 0 {
        None
    } else {
        let w = worst_report(rs.drop_last(), t);
        let r = rs.last();
        if r.target != t {
            w
        } else {
            match w {
                None => Some(r),
                Some(x) => if rank_of(r.outcome) >= rank_of(x.outcome) { Some(r) } else { Some(x) },
            }
        }
    }
}

/// Outcomes are ranked from best to worst: `passed` is better than any other
/// outcome, then come `unsupported`, `failed`, `invalid`, `timeout`,
/// `malformed` together with `harness-error`, `startup-error`, `build-error`
/// and `cancelled`, and any other outcome is worst.
pub proof fn lemma_outcome_order(o: Seq<char>)
    ensures
        o != "passed"@ ==> rank_of("passed"@) < rank_of(o),
        rank_of("unsupported"@) < rank_of("failed"@),
        rank_of("failed"@) < rank_of("invalid"@),
        rank_of("invalid"@) < rank_of("timeout"@),
        rank_of("timeout"@) < rank_of("malformed"@),
        rank_of("malformed"@) == rank_of("harness-error"@),
        rank_of("malformed"@) < rank_of("startup-error"@),
        rank_of("startup-error"@) < rank_of("build-error"@),
        rank_of("build-error"@) < rank_of("cancelled"@),
        o != "passed"@ && o != "unsupported"@ && o != "failed"@ && o != "invalid"@ && o != "timeout"@ && o
            != "malformed"@ && o != "harness-error"@ && o != "startup-error"@ && o != "build-error"@ && o
            != "cancelled"@ ==> rank_of("cancelled"@) < rank_of(o),
{
    reveal_strlit("passed");
    reveal_strlit("failed");
    reveal_strlit("build-error");
    reveal_strlit("startup-error");
    reveal_strlit("malformed");
    reveal_strlit("harness-error");
    reveal_strlit("timeout");
    reveal_strlit("unsupported");
    reveal_strlit("cancelled");
    reveal_strlit("invalid");
    assert("passed"@[0] == 'p' && "failed"@[0] == 'f' && "build-error"@[0] == 'b' && "startup-error"@[0] == 's');
    assert("malformed"@[0] == 'm' && "harness-error"@[0] == 'h' && "timeout"@[0] == 't');
    assert("unsupported"@[0] == 'u' && "cancelled"@[0] == 'c' && "invalid"@[0] == 'i');
}

/// A target's row says `passed` exactly when every boot of the target passed,
/// and a failed boot is never hidden behind a passed or unsupported one.
pub proof fn lemma_row_outcome_is_worst(rs: Seq<ReportModel>, t: Target)
    ensures
        worst_report(rs, t) matches Some(w) ==> {
            &&& (w.outcome == "passed"@) == (forall|i: int| 0 <= i < rs.len() && rs[i].target == t ==> #[trigger] rs[i].outcome == "passed"@)
            &&& (exists|i: int| 0 <= i < rs.len() && rs[i].target == t && #[trigger] rs[i].outcome == "failed"@)
                ==> w.outcome != "passed"@ && w.outcome != "unsupported"@
        },
{
    lemma_worst_report_is_worst(rs, t);
    lemma_outcome_order("passed"@);
    lemma_outcome_order("unsupported"@);
    if let Some(w) = worst_report(rs, t) {
        lemma_outcome_order(w.outcome);
        if w.outcome == "passed"@ {
            assert forall|i: int| 0 <= i < rs.len() && rs[i].target == t implies #[trigger] rs[i].outcome == "passed"@ by {
                lemma_outcome_order(rs[i].outcome);
            }
        }
        if exists|i: int| 0 <= i < rs.len() && rs[i].target == t && #[trigger] rs[i].outcome == "failed"@ {
            let i = choose|i: int| 0 <= i < rs.len() && rs[i].target == t && #[trigger] rs[i].outcome == "failed"@;
            assert(rank_of(rs[i].outcome) <= rank_of(w.outcome));
        }
    }
}

/// A report counts only toward its own target: a report for another target
/// leaves a target's row as it was.
pub proof fn lemma_row_ignores_other_targets(rs: Seq<ReportModel>, r: ReportModel, color: bool, t: Target)
    requires
        r.target != t,
    ensures
        row_of(rs.push(r), color, t) == row_of(rs, color, t),
{
    assert(rs.push(r).drop_last() =~= rs);
}

/// A target's row shows its worst boot: there is a chosen report exactly when
/// the target has reports, it is one of them, and none of them is worse.
pub proof fn lemma_worst_report_is_worst(rs: Seq<ReportModel>, t: Target)
    ensures
        (worst_report(rs, t) is None) == (group_size(rs, t) == 0),
        worst_report(rs, t) matches Some(w) ==> w.target == t && exists|i: int| 0 <= i < rs.len() && rs[i] == w,
        forall|i: int|
            0 <= i < rs.len() && rs[i].target == t ==> worst_report(rs, t) is Some && rank_of(#[trigger] rs[i].outcome)
                <= rank_of(worst_report(rs, t)->Some_0.outcome),
    decreases rs.len(),
{
    if rs.len() > 0 {
        let init = rs.drop_last();
        lemma_worst_report_is_worst(init, t);
        assert forall|i: int| 0 <= i < init.len() implies init[i] == rs[i] by {}
        if let Some(w) = worst_report(rs, t) {
            if w == rs.last() {
                assert(rs[rs.len() - 1] == w);
            } else {
                let x = worst_report(init, t)->Some_0;
                let k = choose|i: int| 0 <= i < init.len() && init[i] == x;
                assert(rs[k] == w);
            }
        }
        assert forall|i: int| 0 <= i < rs.len() && rs[i].target == t implies worst_report(rs, t) is Some
            && rank_of(#[trigger] rs[i].outcome) <= rank_of(worst_report(rs, t)->Some_0.outcome) by {
            if i < init.len() {
                assert(init[i] == rs[i]);
                assert(rank_of(init[i].outcome) <= rank_of(worst_report(init, t)->Some_0.outcome));
            } else {
                assert(rs[i] == rs.last());
            }
        }
    }
}

/// ` passed=.. failed=.. skipped=..`, each count coloured.
pub open spec fn counts_fields(color: bool, c: Counts) -> Seq<char> {
    " passed="@ + painted(color, tone_of_count(c.passed, Tone::Success), decimal(c.passed as nat))
        + " failed="@ + painted(color, tone_of_count(c.failed, Tone::Failure), decimal(c.failed as nat))
        + " skipped="@ + painted(color, tone_of_count(c.skipped, Tone::Skipped), decimal(c.skipped as nat))
}

/// One target row.
pub open spec fn target_row(color: bool, t: Target, outcome: Seq<char>, c: Counts, detail: Option<Seq<char>>) -> Seq<char> {
    painted(color, Tone::Active, pad_right(target_name(t), 14)) + " "@
        + painted(color, tone_of_outcome(outcome), pad_right(outcome, 11)) + counts_fields(color, c)
        + match detail {
            Some(d) => " "@ + d,
            None => Seq::<char>::empty(),
        } + "\n"@
}

/// The row of target `t`: its worst outcome and its summed counts. The detail
/// of a report is shown only when the target ran a single boot.
pub open spec fn row_of(rs: Seq<ReportModel>, color: bool, t: Target) -> Seq<char> {
    if group_size(rs, t) == 0 {
        Seq::empty()
    } else {
        let w = worst_report(rs, t)->Some_0;
        target_row(color, t, w.outcome, group_counts(rs, t), if group_size(rs, t) == 1 { w.detail } else { None })
    }
}

/// The rows of the first `k` targets.
pub open spec fn rows_upto(rs: Seq<ReportModel>, color: bool, k: nat) -> Seq<char>
    decreases k,
{
    if k == 0 {
        Seq::empty()
    } else {
        rows_upto(rs, color, (k - 1) as nat) + row_of(rs, color, all_targets()[k - 1])
    }
}

/// The total of the first `k` targets' rows.
pub open spec fn total_upto(rs: Seq<ReportModel>, k: nat) -> Counts
    decreases k,
{
    if k == 0 {
        Counts { passed: 0, failed: 0, skipped: 0 }
    } else {
        saturating_sum(total_upto(rs, (k - 1) as nat), group_counts(rs, all_targets()[k - 1]))
    }
}

pub open spec fn counts_row(color: bool, label: Seq<char>, c: Counts) -> Seq<char> {
    pad_right(label, 14) + counts_fields(color, c) + "\n"@
}

/// The whole summary.
pub open spec fn summary_text(rs: Seq<ReportModel>, color: bool) -> Seq<char> {
    "aarch64-vmsa FVP test summary\n"@ + rows_upto(rs, color, 5) + counts_row(color, "total"@, total_upto(rs, 5))
}

proof fn lemma_decimal_no_escape(n: nat)
    ensures
        no_escape(decimal(n)),
    decreases n,
{
    reveal(no_escape);
    if n >= 10 {
        lemma_decimal_no_escape(n / 10);
    }
}

proof fn lemma_pad_no_escape(s: Seq<char>, width: nat)
    requires
        no_escape(s),
    ensures
        no_escape(pad_right(s, width)),
{
    reveal(no_escape);
}

proof fn lemma_strips_literal(t: Seq<char>)
    requires
        forall|i: int| 0 <= i < t.len() ==> t[i] != '\x1b',
    ensures
        strips_to(t, t),
{
    assert(no_escape(t)) by {
        reveal(no_escape);
    }
    lemma_strips_plain(t);
}

proof fn lemma_strips_counts_fields(c: Counts)
    ensures
        strips_to(counts_fields(true, c), counts_fields(false, c)),
{
    reveal_strlit(" passed=");
    reveal_strlit(" failed=");
    reveal_strlit(" skipped=");
    lemma_strips_literal(" passed="@);
    lemma_strips_literal(" failed="@);
    lemma_strips_literal(" skipped="@);
    lemma_decimal_no_escape(c.passed as nat);
    lemma_decimal_no_escape(c.failed as nat);
    lemma_decimal_no_escape(c.skipped as nat);
    let d1 = decimal(c.passed as nat);
    let d2 = decimal(c.failed as nat);
    let d3 = decimal(c.skipped as nat);
    let p1 = painted(true, tone_of_count(c.passed, Tone::Success), d1);
    let p2 = painted(true, tone_of_count(c.failed, Tone::Failure), d2);
    let p3 = painted(true, tone_of_count(c.skipped, Tone::Skipped), d3);
    lemma_strips_painted(true, tone_of_count(c.passed, Tone::Success), d1);
    lemma_strips_painted(true, tone_of_count(c.failed, Tone::Failure), d2);
    lemma_strips_painted(true, tone_of_count(c.skipped, Tone::Skipped), d3);
    lemma_strips_concat(" passed="@, " passed="@, p1, d1);
    lemma_strips_concat(" passed="@ + p1, " passed="@ + d1, " failed="@, " failed="@);
    lemma_strips_concat(" passed="@ + p1 + " failed="@, " passed="@ + d1 + " failed="@, p2, d2);
    lemma_strips_concat(" passed="@ + p1 + " failed="@ + p2, " passed="@ + d1 + " failed="@ + d2, " skipped="@, " skipped="@);
    lemma_strips_concat(
        " passed="@ + p1 + " failed="@ + p2 + " skipped="@,
        " passed="@ + d1 + " failed="@ + d2 + " skipped="@,
        p3,
        d3,
    );
}

proof fn lemma_target_names_no_escape(t: Target)
    ensures
        no_escape(target_name(t)),
{
    reveal(no_escape);
    reveal_strlit("ns-el2");
    reveal_strlit("secure-el2");
    reveal_strlit("realm-el2");
    reveal_strlit("realm-stage2");
    reveal_strlit("root-el3");
}

proof fn lemma_strips_target_row(t: Target, outcome: Seq<char>, c: Counts, detail: Option<Seq<char>>)
    requires
        no_escape(outcome),
        detail matches Some(d) ==> no_escape(d),
    ensures
        strips_to(target_row(true, t, outcome, c, detail), target_row(false, t, outcome, c, detail)),
{
    reveal_strlit(" ");
    reveal_strlit("\n");
    lemma_strips_literal(" "@);
    lemma_strips_literal("\n"@);
    lemma_target_names_no_escape(t);
    let name = pad_right(target_name(t), 14);
    let out = pad_right(outcome, 11);
    lemma_pad_no_escape(target_name(t), 14);
    lemma_pad_no_escape(outcome, 11);
    let d = match detail {
        Some(d) => " "@ + d,
        None => Seq::<char>::empty(),
    };
    assert(no_escape(d)) by {
        reveal(no_escape);
    }
    lemma_strips_plain(d);
    let a = painted(true, Tone::Active, name);
    let o = painted(true, tone_of_outcome(outcome), out);
    lemma_strips_painted(true, Tone::Active, name);
    lemma_strips_painted(true, tone_of_outcome(outcome), out);
    lemma_strips_counts_fields(c);
    lemma_strips_concat(a, name, " "@, " "@);
    lemma_strips_concat(a + " "@, name + " "@, o, out);
    lemma_strips_concat(a + " "@ + o, name + " "@ + out, counts_fields(true, c), counts_fields(false, c));
    lemma_strips_concat(
        a + " "@ + o + counts_fields(true, c),
        name + " "@ + out + counts_fields(false, c),
        d,
        d,
    );
    lemma_strips_concat(
        a + " "@ + o + counts_fields(true, c) + d,
        name + " "@ + out + counts_fields(false, c) + d,
        "\n"@,
        "\n"@,
    );
}

proof fn lemma_strips_rows(rs: Seq<ReportModel>, k: nat)
    requires
        k <= 5,
        forall|i: int| 0 <= i < rs.len() ==> no_escape(#[trigger] rs[i].outcome) && (rs[i].detail matches Some(d) ==> no_escape(d)),
    ensures
        strips_to(rows_upto(rs, true, k), rows_upto(rs, false, k)),
    decreases k,
{
    if k == 0 {
        assert(no_escape(Seq::<char>::empty())) by {
            reveal(no_escape);
        }
        lemma_strips_plain(Seq::<char>::empty());
    } else {
        let t = all_targets()[k - 1];
        lemma_strips_rows(rs, (k - 1) as nat);
        if group_size(rs, t) == 0 {
            assert(no_escape(Seq::<char>::empty())) by {
                reveal(no_escape);
            }
            lemma_strips_plain(Seq::<char>::empty());
        } else {
            lemma_worst_report_is_worst(rs, t);
            let w = worst_report(rs, t)->Some_0;
            let i = choose|i: int| 0 <= i < rs.len() && rs[i] == w;
            assert(no_escape(rs[i].outcome));
            let detail = if group_size(rs, t) == 1 { w.detail } else { None };
            lemma_strips_target_row(t, w.outcome, group_counts(rs, t), detail);
        }
        lemma_strips_concat(
            rows_upto(rs, true, (k - 1) as nat),
            rows_upto(rs, false, (k - 1) as nat),
            row_of(rs, true, t),
            row_of(rs, false, t),
        );
    }
}

/// The coloured summary is the plain summary with colour codes added:
/// removing its escape sequences gives the plain summary, provided no outcome
/// or detail holds an escape character of its own.
pub proof fn lemma_plain_summary_is_stripped_colour(rs: Seq<ReportModel>)
    requires
        forall|i: int| 0 <= i < rs.len() ==> no_escape(#[trigger] rs[i].outcome) && (rs[i].detail matches Some(d) ==> no_escape(d)),
    ensures
        strip_ansi(summary_text(rs, true)) == summary_text(rs, false),
{
    reveal_strlit("aarch64-vmsa FVP test summary\n");
    reveal_strlit("total");
    reveal_strlit("\n");
    let header = "aarch64-vmsa FVP test summary\n"@;
    lemma_strips_literal(header);
    lemma_strips_literal("\n"@);
    assert(no_escape("total"@)) by {
        reveal(no_escape);
    }
    let label = pad_right("total"@, 14);
    lemma_pad_no_escape("total"@, 14);
    lemma_strips_plain(label);
    let total = total_upto(rs, 5);
    lemma_strips_counts_fields(total);
    lemma_strips_concat(label, label, counts_fields(true, total), counts_fields(false, total));
    lemma_strips_concat(label + counts_fields(true, total), label + counts_fields(false, total), "\n"@, "\n"@);
    lemma_strips_rows(rs, 5);
    lemma_strips_concat(header, header, rows_upto(rs, true, 5), rows_upto(rs, false, 5));
    lemma_strips_concat(
        header + rows_upto(rs, true, 5),
        header + rows_upto(rs, false, 5),
        counts_row(true, "total"@, total),
        counts_row(false, "total"@, total),
    );
    lemma_strips_whole(summary_text(rs, true), summary_text(rs, false));
}

fn outcome_rank(outcome: &str) -> (r: u8)
    ensures
        r == rank_of(outcome@),
{
    let o = chars_of(outcome);
    if same_chars(o.as_slice(), chars_of("passed").as_slice()) {
        0
    } else if same_chars(o.as_slice(), chars_of("unsupported").as_slice()) {
        1
    } else if same_chars(o.as_slice(), chars_of("failed").as_slice()) {
        2
    } else if same_chars(o.as_slice(), chars_of("invalid").as_slice()) {
        3
    } else if same_chars(o.as_slice(), chars_of("timeout").as_slice()) {
        4
    } else if same_chars(o.as_slice(), chars_of("malformed").as_slice()) || same_chars(
        o.as_slice(),
        chars_of("harness-error").as_slice(),
    ) {
        5
    } else if same_chars(o.as_slice(), chars_of("startup-error").as_slice()) {
        6
    } else if same_chars(o.as_slice(), chars_of("build-error").as_slice()) {
        7
    } else if same_chars(o.as_slice(), chars_of("cancelled").as_slice()) {
        8
    } else {
        9
    }
}

fn outcome_tone(outcome: &str) -> (r: Tone)
    ensures
        r == tone_of_outcome(outcome@),
{
    let o = chars_of(outcome);
    if same_chars(o.as_slice(), chars_of("passed").as_slice()) {
        Tone::Success
    } else if same_chars(o.as_slice(), chars_of("unsupported").as_slice()) {
        Tone::Skipped
    } else {
        Tone::Failure
    }
}

fn count_tone(count: u32, nonzero: Tone) -> (r: Tone)
    ensures
        r == tone_of_count(count, nonzero),
{
    if count == 0 { Tone::Muted } else { nonzero }
}

fn push_counts_fields(text: &mut String, color: bool, counts: &Counts)
    ensures
        final(text)@ == old(text)@ + counts_fields(color, *counts),
{
    let ghost start = text@;
    text.append(" passed=");
    let passed = paint(color, count_tone(counts.passed, Tone::Success), decimal_text(counts.passed as u64).as_str());
    text.append(passed.as_str());
    text.append(" failed=");
    let failed = paint(color, count_tone(counts.failed, Tone::Failure), decimal_text(counts.failed as u64).as_str());
    text.append(failed.as_str());
    text.append(" skipped=");
    let skipped = paint(color, count_tone(counts.skipped, Tone::Skipped), decimal_text(counts.skipped as u64).as_str());
    text.append(skipped.as_str());
    assert(text@ =~= start + counts_fields(color, *counts));
}

fn write_target(text: &mut String, color: bool, target: Target, outcome: &str, counts: &Counts, detail: Option<&str>)
    ensures
        final(text)@ == old(text)@ + target_row(
            color,
            target,
            outcome@,
            *counts,
            match detail {
                Some(d) => Some(d@),
                None => None,
            },
        ),
{
    let ghost start = text@;
    let mut name = String::new();
    push_padded(&mut name, chars_of(target.as_str()).as_slice(), 14);
    let mut padded_outcome = String::new();
    push_padded(&mut padded_outcome, chars_of(outcome).as_slice(), 11);
    text.append(paint(color, Tone::Active, name.as_str()).as_str());
    text.append(" ");
    text.append(paint(color, outcome_tone(outcome), padded_outcome.as_str()).as_str());
    let ghost before_counts = text@;
    push_counts_fields(text, color, counts);
    let ghost before_detail = text@;
    match detail {
        Some(d) => {
            text.append(" ");
            text.append(d);
        },
        None => {},
    }
    text.append("\n");
    assert(text@ =~= start + target_row(
        color,
        target,
        outcome@,
        *counts,
        match detail {
            Some(d) => Some(d@),
            None => None,
        },
    ));
}

fn write_counts_line(text: &mut String, color: bool, label: &str, counts: &Counts)
    ensures
        final(text)@ == old(text)@ + counts_row(color, label@, *counts),
{
    let ghost start = text@;
    push_padded(text, chars_of(label).as_slice(), 14);
    push_counts_fields(text, color, counts);
    text.append("\n");
    assert(text@ =~= start + counts_row(color, label@, *counts));
}

fn saturating_counts(a: Counts, b: Counts) -> (r: Counts)
    ensures
        r == saturating_sum(a, b),
{
    Counts {
        passed: a.passed.saturating_add(b.passed),
        failed: a.failed.saturating_add(b.failed),
        skipped: a.skipped.saturating_add(b.skipped),
    }
}

/// Appends the row of `target` to `text`.
fn write_group(text: &mut String, reports: &[TargetReport], color: bool, target: Target) -> (r: Counts)
    ensures
        final(text)@ == old(text)@ + row_of(report_views(reports@), color, target),
        r == group_counts(report_views(reports@), target),
{
    let ghost rs = report_views(reports@);
    let mut size: usize = 0;
    let mut counts = Counts { passed: 0, failed: 0, skipped: 0 };
    let mut worst: Option<usize> = None;
    let mut j: usize = 0;
    while j < reports.len()
        invariant
            j <= reports@.len(),
            rs == report_views(reports@),
            size as nat == group_size(rs.take(j as int), target),
            size <= j,
            (worst is Some) == (size > 0),
            counts == group_counts(rs.take(j as int), target),
            match worst {
                Some(w) => w < j && worst_report(rs.take(j as int), target) == Some(rs[w as int]),
                None => worst_report(rs.take(j as int), target) is None,
            },
        decreases reports@.len() - j,
    {
        let ghost prefix = rs.take(j as int);
        let ghost next = rs.take(j + 1);
        assert(next.drop_last() =~= prefix);
        assert(next.last() == rs[j as int]);
        let report = &reports[j];
        if report.target == target {
            size = size + 1;
            let add = match &report.counts {
                Some(c) => *c,
                None => Counts { passed: 0, failed: 0, skipped: 0 },
            };
            counts = saturating_counts(counts, add);
            match worst {
                None => {
                    worst = Some(j);
                },
                Some(w) => {
                    if outcome_rank(report.outcome) >= outcome_rank(reports[w].outcome) {
                        worst = Some(j);
                    }
                },
            }
        }
        j = j + 1;
    }
    assert(rs.take(j as int) =~= rs);
    if size == 0 {
        assert(text@ + row_of(rs, color, target) =~= text@);
        return counts;
    }
    let w = match worst {
        Some(w) => w,
        None => {
            assert(false);
            0
        },
    };
    let worst_report = &reports[w];
    let detail: Option<&str> = if size == 1 {
        match &worst_report.detail {
            Some(d) => Some(d.as_str()),
            None => None,
        }
    } else {
        None
    };
    write_target(text, color, target, worst_report.outcome, &counts, detail);
    counts
}

/// The summary table of `reports`, coloured when `color` is set.
fn render(reports: &[TargetReport], color: bool) -> (r: String)
    ensures
        r@ == summary_text(report_views(reports@), color),
{
    let ghost rs = report_views(reports@);
    let mut text = String::from_str("aarch64-vmsa FVP test summary\n");
    let mut total = Counts { passed: 0, failed: 0, skipped: 0 };
    let targets = Target::all();
    let mut k: usize = 0;
    while k < 5
        invariant
            k <= 5,
            targets@ == all_targets(),
            rs == report_views(reports@),
            text@ == "aarch64-vmsa FVP test summary\n"@ + rows_upto(rs, color, k as nat),
            total == total_upto(rs, k as nat),
        decreases 5 - k,
    {
        let ghost before = text@;
        let group = write_group(&mut text, reports, color, targets[k]);
        assert(text@ =~= "aarch64-vmsa FVP test summary\n"@ + rows_upto(rs, color, (k + 1) as nat));
        total = saturating_counts(total, group);
        k = k + 1;
    }
    write_counts_line(&mut text, color, "total", &total);
    text
}

/// The summary table of `reports`, without colour.
pub fn combined(reports: &[TargetReport]) -> (r: String)
    ensures
        r@ == summary_text(report_views(reports@), false),
{
    render(reports, false)
}

/// The summary table of `reports` for a terminal that shows colour when
/// `stdout_has_color` is set.
pub fn combined_for_terminal(reports: &[TargetReport], stdout_has_color: bool) -> (r: String)
    ensures
        r@ == summary_text(report_views(reports@), stdout_has_color),
{
    render(reports, stdout_has_color)
}

} // verus!
