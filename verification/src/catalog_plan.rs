//! The typed test registry of the guest harness, and the boots a test run needs.
//!
//! Each registry row is a Rust tuple written on one line and ended by `;`:
//! an index, the quoted test name, its builder (which names its isolation
//! requirement), and one handler per target, `(none)` where the target has none.
use vstd::prelude::*;
use vstd::string::StringExecFns;
use crate::args::{all_targets, Target};
use crate::text::{
    chars_of, contains_chars, decimal, has_infix, push_chars, push_decimal, same_chars, split_lines,
    string_of, sub_chars, text_lines, trim, trim_chars, views,
};

verus! {

/// How a registry case must be booted.
#[derive(Clone, Copy, Debug, PartialEq, Eq, Structural)]
pub enum Isolation {
    /// Runs with the other sequential cases in one boot.
    Sequential,
    /// Needs a boot of its own.
    Separate,
    /// Needs a boot of its own and may end it.
    Destructive,
}

/// One boot of a target: the filter it passes to the guest, and whether the
/// selected test is expected to terminate the boot.
#[derive(Clone, Debug, PartialEq, Eq)]
pub struct BootPlan {
    pub filter: Option<String>,
    pub expects_termination: bool,
}

/// The mathematical value of a [`BootPlan`].
pub struct PlanModel {
    pub filter: Option<Seq<char>>,
    pub expects_termination: bool,
}

impl View for BootPlan {
    type V = PlanModel;

    open spec fn view(&self) -> PlanModel {
        PlanModel {
            filter: match self.filter {
                Some(f) => Some(f@),
                None => None,
            },
            expects_termination: self.expects_termination,
        }
    }
}

struct CatalogCase {
    name: Vec<char>,
    targets: [bool; 5],
    isolation: Isolation,
    expects_termination: bool,
}

/// A registry case.
pub struct CaseModel {
    pub name: Seq<char>,
    /// One flag per target, in the order of `all_targets`: whether the target has a handler.
    pub targets: Seq<bool>,
    pub isolation: Isolation,
    pub expects_termination: bool,
}

impl CatalogCase {
    spec fn model(&self) -> CaseModel {
        CaseModel {
            name: self.name@,
            targets: self.targets@,
            isolation: self.isolation,
            expects_termination: self.expects_termination,
        }
    }
}

spec fn case_models(cs: Seq<CatalogCase>) -> Seq<CaseModel> {
    cs.map_values(|c: CatalogCase| c.model())
}

/// Where the scan of a row stands.
pub struct ScanState {
    pub fields: Seq<Seq<char>>,
    pub start: int,
    pub depth: u32,
    pub quoted: bool,
    pub escaped: bool,
}

/// The fields of `line` from position `i` on: split at commas outside brackets
/// and quotes, each field trimmed.
pub open spec fn scan(line: Seq<char>, i: int, st: ScanState) -> Result<Seq<Seq<char>>, Seq<char>>
    decreases line.len() - i,
{
    if i >= line.len() {
        if st.quoted || st.depth != 0 {
            Err("unterminated registry row: "@ + line)
        } else {
            Ok(st.fields.push(trim(line.subrange(st.start, line.len() as int))))
        }
    } else {
        let c = line[i];
        if st.quoted {
            if st.escaped {
                scan(line, i + 1, ScanState { escaped: false, ..st })
            } else if c == '\\' {
                scan(line, i + 1, ScanState { escaped: true, ..st })
            } else if c == '"' {
                scan(line, i + 1, ScanState { quoted: false, ..st })
            } else {
                scan(line, i + 1, st)
            }
        } else if c == '"' {
            scan(line, i + 1, ScanState { quoted: true, ..st })
        } else if c == '(' {
            scan(line, i + 1, ScanState { depth: if st.depth == u32::MAX { u32::MAX } else { (st.depth + 1) as u32 }, ..st })
        } else if c == ')' {
            if st.depth == 0 {
                Err("unbalanced registry row: "@ + line)
            } else {
                scan(line, i + 1, ScanState { depth: (st.depth - 1) as u32, ..st })
            }
        } else if c == ',' && st.depth == 0 {
            scan(line, i + 1, ScanState {
                fields: st.fields.push(trim(line.subrange(st.start, i))),
                start: i + 1,
                ..st
            })
        } else {
            scan(line, i + 1, st)
        }
    }
}

/// The top-level fields of a registry row.
pub open spec fn top_level_fields(line: Seq<char>) -> Result<Seq<Seq<char>>, Seq<char>> {
    scan(line, 0, ScanState { fields: seq![], start: 0, depth: 0, quoted: false, escaped: false })
}

/// A trimmed line that holds a registry row.
pub open spec fn is_row(t: Seq<char>) -> bool {
    t.len() > 0 && t.last() == ';' && has_infix(t, "\""@) && has_infix(t, "), ("@)
}

/// The name in a quoted field.
pub open spec fn quoted_name(f: Seq<char>) -> Option<Seq<char>> {
    if f.len() >= 2 && f[0] == '"' && f.last() == '"' {
        Some(f.subrange(1, f.len() - 1))
    } else {
        None
    }
}

pub open spec fn isolation_of(builder: Seq<char>) -> Isolation {
    if has_infix(builder, "IsolationRequirement::DestructiveBoot"@) {
        Isolation::Destructive
    } else if has_infix(builder, "IsolationRequirement::SeparateBoot"@) {
        Isolation::Separate
    } else {
        Isolation::Sequential
    }
}

/// The case that the trimmed row `t` declares.
pub open spec fn parse_row(t: Seq<char>) -> Result<CaseModel, Seq<char>> {
    match top_level_fields(t.drop_last()) {
        Err(m) => Err(m),
        Ok(fields) => if fields.len() != 8 {
            Err("registry row has "@ + decimal(fields.len()) + " fields rather than 8: "@ + t)
        } else {
            match quoted_name(fields[1]) {
                None => Err("registry row has invalid name: "@ + t),
                Some(name) => {
                    let isolation = isolation_of(fields[2]);
                    Ok(CaseModel {
                        name,
                        targets: Seq::new(5, |k: int| trim(fields[3 + k]) != "(none)"@),
                        isolation,
                        expects_termination: isolation == Isolation::Destructive && has_infix(fields[2], "true"@),
                    })
                },
            }
        },
    }
}

/// The cases declared by the first `n` lines.
pub open spec fn parse_lines(lines: Seq<Seq<char>>, n: nat) -> Result<Seq<CaseModel>, Seq<char>>
    decreases n,
{
    if n == 0 {
        Ok(seq![])
    } else {
        match parse_lines(lines, (n - 1) as nat) {
            Err(m) => Err(m),
            Ok(cases) => {
                let t = trim(lines[n - 1]);
                if !is_row(t) {
                    Ok(cases)
                } else {
                    match parse_row(t) {
                        Err(m) => Err(m),
                        Ok(c) => Ok(cases.push(c)),
                    }
                }
            },
        }
    }
}

/// The cases of the registry source `registry`.
pub open spec fn registry_cases(registry: Seq<char>) -> Result<Seq<CaseModel>, Seq<char>> {
    parse_lines(text_lines(registry), text_lines(registry).len())
}

pub open spec fn has_handler(c: CaseModel) -> bool {
    exists|k: int| 0 <= k < 5 && #[trigger] c.targets[k]
}

/// The first of the checks on the first `n` cases that fails.
pub open spec fn check_cases(cases: Seq<CaseModel>, n: nat) -> Result<(), Seq<char>>
    decreases n,
{
    if n == 0 {
        Ok(())
    } else {
        match check_cases(cases, (n - 1) as nat) {
            Err(m) => Err(m),
            Ok(_) => {
                let c = cases[n - 1];
                if !has_handler(c) {
                    Err("registry case "@ + c.name + " has no adapter handler"@)
                } else if exists|j: int| 0 <= j < n - 1 && #[trigger] cases[j].name == c.name {
                    Err("duplicate registry case "@ + c.name)
                } else if c.expects_termination != (c.isolation == Isolation::Destructive) {
                    Err("registry case "@ + c.name + " has inconsistent destructive termination metadata"@)
                } else {
                    Ok(())
                }
            },
        }
    }
}

/// Whether the registry is well formed: it declares at least one case, every
/// case has a handler and a unique name, and exactly the destructive cases
/// expect their boot to end.
pub open spec fn validate_spec(registry: Seq<char>) -> Result<(), Seq<char>> {
    match registry_cases(registry) {
        Err(m) => Err(m),
        Ok(cases) => if cases.len() == 0 {
            Err("typed registry contains no logical tests"@)
        } else {
            check_cases(cases, cases.len())
        },
    }
}

pub open spec fn target_index(t: Target) -> int {
    match t {
        Target::NsEl2 => 0,
        Target::SecureEl2 => 1,
        Target::RealmEl2 => 2,
        Target::RealmStage2 => 3,
        Target::RootEl3 => 4,
    }
}

/// A case runs for target `t` when it has a handler there and its name holds the filter.
pub open spec fn selected(c: CaseModel, t: Target, filter: Option<Seq<char>>) -> bool {
    c.targets[target_index(t)] && match filter {
        None => true,
        Some(f) => has_infix(c.name, f),
    }
}

/// Handler columns follow the order of targets: target `t` reads the column
/// at its position in [`all_targets`], so a case is selected for `t` exactly
/// when that column names a handler and its name holds the filter.
pub proof fn lemma_target_reads_its_column(t: Target, c: CaseModel, filter: Option<Seq<char>>, k: int)
    requires
        0 <= k < 5,
        all_targets()[k] == t,
    ensures
        target_index(t) == k,
        selected(c, t, filter) == (c.targets[k] && match filter {
            None => true,
            Some(f) => has_infix(c.name, f),
        }),
{
}

/// The boots of their own that the selected cases among the first `n` need, in registry order.
pub open spec fn isolated_plans(cases: Seq<CaseModel>, t: Target, filter: Option<Seq<char>>, n: nat) -> Seq<PlanModel>
    decreases n,
{
    if n == 0 {
        seq![]
    } else {
        let c = cases[n - 1];
        let earlier = isolated_plans(cases, t, filter, (n - 1) as nat);
        if selected(c, t, filter) && c.isolation != Isolation::Sequential {
            earlier.push(PlanModel { filter: Some(c.name), expects_termination: c.expects_termination })
        } else {
            earlier
        }
    }
}

/// The boots that testing `t` with `filter` needs: one shared boot when a
/// selected case is sequential, then one boot per selected isolated case.
pub open spec fn plan_for(cases: Seq<CaseModel>, t: Target, filter: Option<Seq<char>>) -> Seq<PlanModel> {
    (if exists|i: int| 0 <= i < cases.len() && selected(#[trigger] cases[i], t, filter)
        && cases[i].isolation == Isolation::Sequential {
        seq![PlanModel { filter, expects_termination: false }]
    } else {
        seq![]
    }) + isolated_plans(cases, t, filter, cases.len())
}

pub open spec fn plan_spec(registry: Seq<char>, t: Target, filter: Option<Seq<char>>) -> Result<Seq<PlanModel>, Seq<char>> {
    match registry_cases(registry) {
        Err(m) => Err(m),
        Ok(cases) => Ok(plan_for(cases, t, filter)),
    }
}

/// Whether case `c` needs a boot of its own when testing `t` with `filter`.
pub open spec fn runs_alone(c: CaseModel, t: Target, filter: Option<Seq<char>>) -> bool {
    selected(c, t, filter) && c.isolation != Isolation::Sequential
}

pub open spec fn runs_alone_for(t: Target, filter: Option<Seq<char>>) -> spec_fn(CaseModel) -> bool {
    |c: CaseModel| runs_alone(c, t, filter)
}

/// The boot of its own that case `c` gets: filtered to its name.
pub open spec fn own_boot(c: CaseModel) -> PlanModel {
    PlanModel { filter: Some(c.name), expects_termination: c.expects_termination }
}

pub open spec fn own_boot_of() -> spec_fn(CaseModel) -> PlanModel {
    |c: CaseModel| own_boot(c)
}

proof fn lemma_isolated_plans_filter(cases: Seq<CaseModel>, t: Target, filter: Option<Seq<char>>, n: nat)
    requires
        n <= cases.len(),
    ensures
        isolated_plans(cases, t, filter, n) == cases.take(n as int).filter(runs_alone_for(t, filter)).map_values(
            own_boot_of(),
        ),
    decreases n,
{
    reveal(Seq::filter);
    let pred = runs_alone_for(t, filter);
    if n == 0 {
        assert(cases.take(0).filter(pred) =~= Seq::<CaseModel>::empty());
        assert(cases.take(0).filter(pred).map_values(own_boot_of()) =~= Seq::<PlanModel>::empty());
    } else {
        lemma_isolated_plans_filter(cases, t, filter, (n - 1) as nat);
        let prefix = cases.take(n as int);
        assert(prefix.drop_last() =~= cases.take(n - 1));
        assert(prefix.last() == cases[n - 1]);
        let earlier = cases.take(n - 1).filter(pred);
        if pred(cases[n - 1]) {
            assert(earlier.push(cases[n - 1]).map_values(own_boot_of()) =~= earlier.map_values(own_boot_of()).push(
                own_boot(cases[n - 1]),
            ));
        }
    }
}

/// After the shared boot, a test gets one boot for each selected case that may
/// not share it: filtered to the case's name, expecting termination as the case
/// does, in registry order.
pub proof fn lemma_isolated_boots(cases: Seq<CaseModel>, t: Target, filter: Option<Seq<char>>)
    ensures
        isolated_plans(cases, t, filter, cases.len()) == cases.filter(runs_alone_for(t, filter)).map_values(
            own_boot_of(),
        ),
{
    lemma_isolated_plans_filter(cases, t, filter, cases.len());
    assert(cases.take(cases.len() as int) =~= cases);
}

proof fn lemma_isolated_plans_empty(cases: Seq<CaseModel>, t: Target, filter: Option<Seq<char>>, n: nat)
    requires
        n <= cases.len(),
    ensures
        (isolated_plans(cases, t, filter, n).len() == 0) == !(exists|i: int| 0 <= i < n && #[trigger] runs_alone(cases[i], t, filter)),
    decreases n,
{
    if n > 0 {
        lemma_isolated_plans_empty(cases, t, filter, (n - 1) as nat);
        if runs_alone(cases[n - 1], t, filter) {
            assert(exists|i: int| 0 <= i < n && #[trigger] runs_alone(cases[i], t, filter));
        }
    }
}

/// The shared boot is there exactly when a selected case is sequential; it
/// comes first, passes the test run's filter on and never expects its boot to
/// end. Every boot after it is filtered to the name of a selected case that may
/// not share a boot, and expects termination exactly as that case does.
pub proof fn lemma_plan_shape(cases: Seq<CaseModel>, t: Target, filter: Option<Seq<char>>)
    ensures
        ({
            let ps = plan_for(cases, t, filter);
            let shared = exists|i: int| 0 <= i < cases.len() && #[trigger] selected(cases[i], t, filter)
                && cases[i].isolation == Isolation::Sequential;
            let first = if shared { 1int } else { 0int };
            &&& shared ==> ps.len() > 0 && ps[0] == (PlanModel { filter, expects_termination: false })
            &&& forall|k: int| #![trigger ps[k]] first <= k < ps.len() ==> exists|i: int| #![trigger cases[i]] 0 <= i < cases.len()
                && runs_alone(cases[i], t, filter) && ps[k] == own_boot(cases[i])
        }),
{
    lemma_isolated_boots(cases, t, filter);
    reveal(Seq::filter);
    let iso = cases.filter(runs_alone_for(t, filter));
    let ps = plan_for(cases, t, filter);
    let shared = exists|i: int| 0 <= i < cases.len() && #[trigger] selected(cases[i], t, filter)
        && cases[i].isolation == Isolation::Sequential;
    let first = if shared { 1int } else { 0int };
    assert forall|k: int| #![trigger ps[k]] first <= k < ps.len() implies exists|i: int| #![trigger cases[i]] 0 <= i < cases.len()
        && runs_alone(cases[i], t, filter) && ps[k] == own_boot(cases[i]) by {
        let j = k - first;
        assert(ps[k] == iso.map_values(own_boot_of())[j]);
        cases.lemma_filter_pred(runs_alone_for(t, filter), j);
        let c = iso[j];
        assert(cases.filter(runs_alone_for(t, filter)).contains(c)) by {
            assert(iso[j] == c);
        }
        cases.lemma_filter_contains_rev(runs_alone_for(t, filter), c);
        let i = choose|i: int| 0 <= i < cases.len() && cases[i] == c;
        assert(runs_alone(cases[i], t, filter));
    }
}

/// A test needs no boot at all exactly when no case of the registry is selected
/// for its target and filter.
pub proof fn lemma_plan_empty_iff_nothing_selected(cases: Seq<CaseModel>, t: Target, filter: Option<Seq<char>>)
    ensures
        (plan_for(cases, t, filter).len() == 0) == !(exists|i: int| 0 <= i < cases.len() && #[trigger] selected(cases[i], t, filter)),
{
    lemma_isolated_plans_empty(cases, t, filter, cases.len());
    if exists|i: int| 0 <= i < cases.len() && #[trigger] selected(cases[i], t, filter) {
        let i = choose|i: int| 0 <= i < cases.len() && #[trigger] selected(cases[i], t, filter);
        if cases[i].isolation != Isolation::Sequential {
            assert(runs_alone(cases[i], t, filter));
        }
    }
}

/// The checks of the first `n` cases pass exactly when each of them has a
/// handler, a name that no other of them has, and expects to end its boot
/// exactly when it is destructive.
proof fn lemma_check_cases_ok(cases: Seq<CaseModel>, n: nat)
    requires
        n <= cases.len(),
    ensures
        (check_cases(cases, n) is Ok) == (forall|i: int| 0 <= i < n ==> #[trigger] well_formed_case(cases, n, i)),
    decreases n,
{
    if n > 0 {
        lemma_check_cases_ok(cases, (n - 1) as nat);
        if check_cases(cases, n) is Ok {
            assert forall|i: int| 0 <= i < n implies #[trigger] well_formed_case(cases, n, i) by {
                if i < n - 1 {
                    assert(well_formed_case(cases, (n - 1) as nat, i));
                    if cases[n - 1].name == cases[i].name {
                        assert(cases[i].name == cases[n - 1].name);
                    }
                }
            }
        } else if check_cases(cases, (n - 1) as nat) is Ok {
            assert(!well_formed_case(cases, n, n - 1)) by {
                if exists|j: int| 0 <= j < n - 1 && #[trigger] cases[j].name == cases[n - 1].name {
                    let j = choose|j: int| 0 <= j < n - 1 && #[trigger] cases[j].name == cases[n - 1].name;
                    assert(j != n - 1 && cases[j].name == cases[n - 1].name);
                }
            }
        } else {
            let i = choose|i: int| 0 <= i < n - 1 && !#[trigger] well_formed_case(cases, (n - 1) as nat, i);
            assert(!well_formed_case(cases, n, i));
        }
    }
}

/// Case `i` of the first `n` cases has a handler, a name that no other of them
/// has, and expects to end its boot exactly when it is destructive.
pub open spec fn well_formed_case(cases: Seq<CaseModel>, n: nat, i: int) -> bool {
    &&& has_handler(cases[i])
    &&& forall|j: int| 0 <= j < n && j != i ==> #[trigger] cases[j].name != cases[i].name
    &&& cases[i].expects_termination == (cases[i].isolation == Isolation::Destructive)
}

/// A registry validates exactly when it declares cases, every case has a
/// handler and a name of its own, and exactly the destructive cases expect to
/// end their boot.
pub proof fn lemma_validate_characterized(registry: Seq<char>)
    ensures
        (validate_spec(registry) is Ok) == (registry_cases(registry) matches Ok(cases) && cases.len() > 0
            && forall|i: int| 0 <= i < cases.len() ==> #[trigger] well_formed_case(cases, cases.len(), i)),
{
    if let Ok(cases) = registry_cases(registry) {
        lemma_check_cases_ok(cases, cases.len());
    }
}

proof fn lemma_parse_lines_error_persists(lines: Seq<Seq<char>>, n: nat, m: nat)
    requires
        n <= m,
        parse_lines(lines, n) is Err,
    ensures
        parse_lines(lines, m) == parse_lines(lines, n),
    decreases m - n,
{
    if m > n {
        lemma_parse_lines_error_persists(lines, n, (m - 1) as nat);
    }
}

proof fn lemma_check_cases_error_persists(cases: Seq<CaseModel>, n: nat, m: nat)
    requires
        n <= m,
        check_cases(cases, n) is Err,
    ensures
        check_cases(cases, m) == check_cases(cases, n),
    decreases m - n,
{
    if m > n {
        lemma_check_cases_error_persists(cases, n, (m - 1) as nat);
    }
}

/// Splits `line` at its top-level commas.
fn split_top_level(line: &[char]) -> (r: Result<Vec<Vec<char>>, String>)
    ensures
        match top_level_fields(line@) {
            Ok(fs) => r is Ok && views(r->Ok_0@) == fs,
            Err(m) => r is Err && r->Err_0@ == m,
        },
{
    let mut fields: Vec<Vec<char>> = Vec::new();
    let mut start: usize = 0;
    let mut depth: u32 = 0;
    let mut quoted = false;
    let mut escaped = false;
    let mut index: usize = 0;
    assert(views(fields@) =~= Seq::<Seq<char>>::empty());
    while index < line.len()
        invariant
            index <= line@.len(),
            start <= index,
            top_level_fields(line@) == scan(
                line@,
                index as int,
                ScanState { fields: views(fields@), start: start as int, depth, quoted, escaped },
            ),
        decreases line@.len() - index,
    {
        let c = line[index];
        if quoted {
            if escaped {
                escaped = false;
            } else if c == '\\' {
                escaped = true;
            } else if c == '"' {
                quoted = false;
            }
        } else if c == '"' {
            quoted = true;
        } else if c == '(' {
            depth = depth.saturating_add(1);
        } else if c == ')' {
            if depth == 0 {
                let mut m = String::from_str("unbalanced registry row: ");
                push_chars(&mut m, line);
                return Err(m);
            }
            depth = depth - 1;
        } else if c == ',' && depth == 0 {
            let field = trim_chars(sub_chars(line, start, index).as_slice());
            let ghost before = views(fields@);
            fields.push(field);
            assert(views(fields@) =~= before.push(trim(line@.subrange(start as int, index as int))));
            start = index + 1;
        }
        index = index + 1;
    }
    if quoted || depth != 0 {
        let mut m = String::from_str("unterminated registry row: ");
        push_chars(&mut m, line);
        return Err(m);
    }
    let last = trim_chars(sub_chars(line, start, line.len()).as_slice());
    let ghost before = views(fields@);
    fields.push(last);
    assert(views(fields@) =~= before.push(trim(line@.subrange(start as int, line@.len() as int))));
    Ok(fields)
}

fn row_message(head: &str, t: &[char]) -> (r: String)
    ensures
        r@ == head@ + t@,
{
    let mut m = String::from_str(head);
    push_chars(&mut m, t);
    m
}

/// The case that the trimmed row `t` declares.
fn parse_row_exec(t: &Vec<char>) -> (r: Result<CatalogCase, String>)
    requires
        t@.len() > 0,
    ensures
        match parse_row(t@) {
            Ok(c) => r is Ok && r->Ok_0.model() == c,
            Err(m) => r is Err && r->Err_0@ == m,
        },
{
    let body = sub_chars(t.as_slice(), 0, t.len() - 1);
    assert(body@ =~= t@.drop_last());
    let fields = split_top_level(body.as_slice())?;
    let ghost fs = views(fields@);
    if fields.len() != 8 {
        let mut m = String::from_str("registry row has ");
        push_decimal(&mut m, fields.len() as u64);
        m.append(" fields rather than 8: ");
        push_chars(&mut m, t.as_slice());
        return Err(m);
    }
    let f1 = &fields[1];
    assert(fs[1] == f1@);
    if !(f1.len() >= 2 && f1[0] == '"' && f1[f1.len() - 1] == '"') {
        return Err(row_message("registry row has invalid name: ", t.as_slice()));
    }
    let name = sub_chars(f1.as_slice(), 1, f1.len() - 1);
    let builder = &fields[2];
    assert(fs[2] == builder@);
    let isolation = if contains_chars(builder.as_slice(), chars_of("IsolationRequirement::DestructiveBoot").as_slice()) {
        Isolation::Destructive
    } else if contains_chars(builder.as_slice(), chars_of("IsolationRequirement::SeparateBoot").as_slice()) {
        Isolation::Separate
    } else {
        Isolation::Sequential
    };
    let expects_termination = isolation == Isolation::Destructive && contains_chars(
        builder.as_slice(),
        chars_of("true").as_slice(),
    );
    let none = chars_of("(none)");
    let mut targets = [false; 5];
    let mut k: usize = 0;
    while k < 5
        invariant
            k <= 5,
            fields@.len() == 8,
            fs == views(fields@),
            none@ == "(none)"@,
            targets@.len() == 5,
            forall|j: int| 0 <= j < k ==> targets@[j] == (trim(fs[3 + j]) != "(none)"@),
        decreases 5 - k,
    {
        let handler = &fields[3 + k];
        assert(fs[3 + k] == handler@);
        let trimmed = trim_chars(handler.as_slice());
        targets[k] = !same_chars(trimmed.as_slice(), none.as_slice());
        k = k + 1;
    }
    let case = CatalogCase { name, targets, isolation, expects_termination };
    assert(case.model().targets =~= Seq::new(5, |j: int| trim(fs[3 + j]) != "(none)"@));
    Ok(case)
}

/// The cases that the registry source declares.
fn parse_registry(registry: &str) -> (r: Result<Vec<CatalogCase>, String>)
    ensures
        match registry_cases(registry@) {
            Ok(cs) => r is Ok && case_models(r->Ok_0@) == cs,
            Err(m) => r is Err && r->Err_0@ == m,
        },
{
    let lines = split_lines(chars_of(registry).as_slice());
    let ghost ls = views(lines@);
    let mut cases: Vec<CatalogCase> = Vec::new();
    let mut n: usize = 0;
    assert(case_models(cases@) =~= Seq::<CaseModel>::empty());
    while n < lines.len()
        invariant
            n <= lines@.len(),
            ls == views(lines@),
            ls == text_lines(registry@),
            parse_lines(ls, n as nat) == Ok::<Seq<CaseModel>, Seq<char>>(case_models(cases@)),
        decreases lines@.len() - n,
    {
        let line = trim_chars(lines[n].as_slice());
        assert(ls[n as int] == lines@[n as int]@);
        let is_row_line = line.len() > 0 && line[line.len() - 1] == ';' && contains_chars(
            line.as_slice(),
            chars_of("\"").as_slice(),
        ) && contains_chars(line.as_slice(), chars_of("), (").as_slice());
        if is_row_line {
            let case = match parse_row_exec(&line) {
                Ok(c) => c,
                Err(e) => {
                    proof {
                        lemma_parse_lines_error_persists(ls, (n + 1) as nat, ls.len());
                    }
                    return Err(e);
                },
            };
            let ghost before = case_models(cases@);
            cases.push(case);
            assert(case_models(cases@) =~= before.push(case.model()));
        }
        n = n + 1;
    }
    assert(ls.len() == lines@.len());
    Ok(cases)
}

fn names_equal(a: &Vec<char>, b: &Vec<char>) -> (r: bool)
    ensures
        r == (a@ == b@),
{
    same_chars(a.as_slice(), b.as_slice())
}

/// Checks that the registry source is well formed: it declares at least one
/// case, every case has a handler and a unique name, and exactly the
/// destructive cases expect their boot to end.
pub fn validate(registry: &str) -> (r: Result<(), String>)
    ensures
        match validate_spec(registry@) {
            Ok(_) => r is Ok,
            Err(m) => r is Err && r->Err_0@ == m,
        },
{
    let cases = parse_registry(registry)?;
    let ghost cs = case_models(cases@);
    if cases.len() == 0 {
        return Err(String::from_str("typed registry contains no logical tests"));
    }
    let mut index: usize = 0;
    while index < cases.len()
        invariant
            index <= cases@.len(),
            cs == case_models(cases@),
            registry_cases(registry@) == Ok::<Seq<CaseModel>, Seq<char>>(cs),
            cs.len() > 0,
            check_cases(cs, index as nat) is Ok,
        decreases cases@.len() - index,
    {
        let case = &cases[index];
        assert(cs[index as int] == case.model());
        let has_target = case.targets[0] || case.targets[1] || case.targets[2] || case.targets[3] || case.targets[4];
        if !has_target {
            assert forall|k: int| 0 <= k < 5 implies !(#[trigger] cs[index as int].targets[k]) by {}
            let mut m = String::from_str("registry case ");
            push_chars(&mut m, case.name.as_slice());
            m.append(" has no adapter handler");
            proof { lemma_check_cases_error_persists(cs, (index + 1) as nat, cs.len()); }
            return Err(m);
        }
        assert(has_handler(cs[index as int])) by {
            if case.targets[0] {
                assert(cs[index as int].targets[0]);
            } else if case.targets[1] {
                assert(cs[index as int].targets[1]);
            } else if case.targets[2] {
                assert(cs[index as int].targets[2]);
            } else if case.targets[3] {
                assert(cs[index as int].targets[3]);
            } else {
                assert(cs[index as int].targets[4]);
            }
        }
        let mut j: usize = 0;
        while j < index
            invariant
                j <= index < cases@.len(),
                cs == case_models(cases@),
                registry_cases(registry@) == Ok::<Seq<CaseModel>, Seq<char>>(cs),
                cs.len() > 0,
                check_cases(cs, index as nat) is Ok,
                has_handler(cs[index as int]),
                forall|i: int| 0 <= i < j ==> cs[i].name != cs[index as int].name,
            decreases index - j,
        {
            assert(cs[j as int] == cases@[j as int].model());
            if names_equal(&cases[j].name, &cases[index].name) {
                assert(cs[j as int].name == cs[index as int].name);
                let mut m = String::from_str("duplicate registry case ");
                push_chars(&mut m, cases[index].name.as_slice());
                proof { lemma_check_cases_error_persists(cs, (index + 1) as nat, cs.len()); }
                return Err(m);
            }
            j = j + 1;
        }
        if case.expects_termination != (case.isolation == Isolation::Destructive) {
            let mut m = String::from_str("registry case ");
            push_chars(&mut m, case.name.as_slice());
            m.append(" has inconsistent destructive termination metadata");
            proof { lemma_check_cases_error_persists(cs, (index + 1) as nat, cs.len()); }
            return Err(m);
        }
        index = index + 1;
    }
    Ok(())
}

fn index_of_target(t: Target) -> (r: usize)
    ensures
        r == target_index(t),
{
    match t {
        Target::NsEl2 => 0,
        Target::SecureEl2 => 1,
        Target::RealmEl2 => 2,
        Target::RealmStage2 => 3,
        Target::RootEl3 => 4,
    }
}

fn is_selected(case: &CatalogCase, target_index: usize, filter: &Option<Vec<char>>) -> (r: bool)
    requires
        target_index < 5,
    ensures
        r == (case.targets@[target_index as int] && match filter {
            None => true,
            Some(f) => has_infix(case.name@, f@),
        }),
{
    case.targets[target_index] && match filter {
        None => true,
        Some(f) => contains_chars(case.name.as_slice(), f.as_slice()),
    }
}

/// The boots that testing `target` with `filter` needs, for the registry source `registry`.
pub fn plan(registry: &str, target: Target, filter: Option<&str>) -> (r: Result<Vec<BootPlan>, String>)
    ensures
        match plan_spec(
            registry@,
            target,
            match filter {
                Some(f) => Some(f@),
                None => None,
            },
        ) {
            Ok(ps) => r is Ok && r->Ok_0@.map_values(|p: BootPlan| p@) == ps,
            Err(m) => r is Err && r->Err_0@ == m,
        },
{
    let cases = parse_registry(registry)?;
    let ghost cs = case_models(cases@);
    let ghost fspec = match filter {
        Some(f) => Some(f@),
        None => None,
    };
    let wanted: Option<Vec<char>> = match filter {
        Some(f) => Some(chars_of(f)),
        None => None,
    };
    let ti = index_of_target(target);
    let mut any_sequential = false;
    let mut i: usize = 0;
    while i < cases.len()
        invariant
            i <= cases@.len(),
            cs == case_models(cases@),
            ti == target_index(target),
            fspec == match wanted { Some(w) => Some(w@), None => None::<Seq<char>> },
            any_sequential == exists|j: int| 0 <= j < i && selected(#[trigger] cs[j], target, fspec)
                && cs[j].isolation == Isolation::Sequential,
        decreases cases@.len() - i,
    {
        assert(cs[i as int] == cases@[i as int].model());
        if is_selected(&cases[i], ti, &wanted) && cases[i].isolation == Isolation::Sequential {
            any_sequential = true;
        }
        i = i + 1;
    }
    let mut plans: Vec<BootPlan> = Vec::new();
    if any_sequential {
        let f = match filter {
            Some(f) => Some(String::from_str(f)),
            None => None,
        };
        plans.push(BootPlan { filter: f, expects_termination: false });
    }
    let ghost head = plans@.map_values(|p: BootPlan| p@);
    let mut n: usize = 0;
    while n < cases.len()
        invariant
            n <= cases@.len(),
            cs == case_models(cases@),
            ti == target_index(target),
            fspec == match wanted { Some(w) => Some(w@), None => None::<Seq<char>> },
            plans@.map_values(|p: BootPlan| p@) == head + isolated_plans(cs, target, fspec, n as nat),
        decreases cases@.len() - n,
    {
        let case = &cases[n];
        assert(cs[n as int] == case.model());
        if is_selected(case, ti, &wanted) && case.isolation != Isolation::Sequential {
            let ghost before = plans@.map_values(|p: BootPlan| p@);
            let p = BootPlan { filter: Some(string_of(case.name.as_slice())), expects_termination: case.expects_termination };
            plans.push(p);
            assert(plans@.map_values(|p: BootPlan| p@) =~= before.push(p@));
            assert(head + isolated_plans(cs, target, fspec, (n + 1) as nat) =~= (head + isolated_plans(
                cs,
                target,
                fspec,
                n as nat,
            )).push(p@));
        }
        n = n + 1;
    }
    Ok(plans)
}

} // verus!
