//! Command-line arguments of the test runner.
use vstd::prelude::*;
use vstd::string::StringExecFns;
use vstd::utf8::encode_utf8;
use crate::text::{chars_of, concat, same_chars};

verus! {

/// The longest `--filter` value, in bytes.
pub const FILTER_LIMIT: usize = 128;

/// The firmware configurations that the runner can test.
#[derive(Clone, Copy, Debug, PartialEq, Eq, Structural)]
pub enum Target {
    NsEl2,
    SecureEl2,
    RealmEl2,
    RealmStage2,
    RootEl3,
}

/// The name of a target on the command line and in reports.
pub open spec fn target_name(t: Target) -> Seq<char> {
    match t {
        Target::NsEl2 => "ns-el2"@,
        Target::SecureEl2 => "secure-el2"@,
        Target::RealmEl2 => "realm-el2"@,
        Target::RealmStage2 => "realm-stage2"@,
        Target::RootEl3 => "root-el3"@,
    }
}

/// The target with the given name.
pub open spec fn target_named(name: Seq<char>) -> Option<Target> {
    if name == "ns-el2"@ {
        Some(Target::NsEl2)
    } else if name == "secure-el2"@ {
        Some(Target::SecureEl2)
    } else if name == "realm-el2"@ {
        Some(Target::RealmEl2)
    } else if name == "realm-stage2"@ {
        Some(Target::RealmStage2)
    } else if name == "root-el3"@ {
        Some(Target::RootEl3)
    } else {
        None
    }
}

/// Every target, in the order in which the runner tests and reports them.
pub open spec fn all_targets() -> Seq<Target> {
    seq![Target::NsEl2, Target::SecureEl2, Target::RealmEl2, Target::RealmStage2, Target::RootEl3]
}

impl Target {
    /// Every target, in the order in which the runner tests and reports them.
    pub fn all() -> (r: [Target; 5])
        ensures
            r@ == all_targets(),
    {
        let r = [Target::NsEl2, Target::SecureEl2, Target::RealmEl2, Target::RealmStage2, Target::RootEl3];
        assert(r@ =~= all_targets());
        r
    }

    pub fn as_str(self) -> (r: &'static str)
        ensures
            r@ == target_name(self),
    {
        match self {
            Target::NsEl2 => "ns-el2",
            Target::SecureEl2 => "secure-el2",
            Target::RealmEl2 => "realm-el2",
            Target::RealmStage2 => "realm-stage2",
            Target::RootEl3 => "root-el3",
        }
    }

    fn parse(value: &[char]) -> (r: Option<Self>)
        ensures
            r == target_named(value@),
    {
        if same_chars(value, chars_of("ns-el2").as_slice()) {
            Some(Target::NsEl2)
        } else if same_chars(value, chars_of("secure-el2").as_slice()) {
            Some(Target::SecureEl2)
        } else if same_chars(value, chars_of("realm-el2").as_slice()) {
            Some(Target::RealmEl2)
        } else if same_chars(value, chars_of("realm-stage2").as_slice()) {
            Some(Target::RealmStage2)
        } else if same_chars(value, chars_of("root-el3").as_slice()) {
            Some(Target::RootEl3)
        } else {
            None
        }
    }
}

/// What the runner is asked to do.
#[derive(Debug)]
pub enum Command {
    Doctor,
    Test(Vec<Target>),
    Clean,
}

/// The parsed command line.
#[derive(Debug)]
pub struct Args {
    pub command: Command,
    pub crate_path: Option<String>,
    pub filter: Option<String>,
    pub keep: bool,
}

/// The mathematical value of a [`Command`].
pub enum CommandModel {
    Doctor,
    Test(Seq<Target>),
    Clean,
}

/// The mathematical value of [`Args`].
pub struct ArgsModel {
    pub command: CommandModel,
    pub crate_path: Option<Seq<char>>,
    pub filter: Option<Seq<char>>,
    pub keep: bool,
}

pub open spec fn opt_chars(o: Option<String>) -> Option<Seq<char>> {
    match o {
        Some(s) => Some(s@),
        None => None,
    }
}

impl View for Args {
    type V = ArgsModel;

    open spec fn view(&self) -> ArgsModel {
        ArgsModel {
            command: match self.command {
                Command::Doctor => CommandModel::Doctor,
                Command::Test(targets) => CommandModel::Test(targets@),
                Command::Clean => CommandModel::Clean,
            },
            crate_path: opt_chars(self.crate_path),
            filter: opt_chars(self.filter),
            keep: self.keep,
        }
    }
}

/// The usage text printed for a malformed command line.
pub open spec fn usage_text() -> Seq<char> {
    "usage: vmsa-test doctor --crate <path>\n       vmsa-test test <ns-el2|secure-el2|realm-el2|realm-stage2|root-el3|all> --crate <path> [--filter <substring>] [--keep]\n       vmsa-test clean"@
}

/// A control character: the Unicode general category `Cc`, as `char::is_control` tests.
pub open spec fn is_control(c: char) -> bool {
    c <= '\u{1F}' || ('\u{7F}' <= c && c <= '\u{9F}')
}

/// A filter of at most 128 bytes with no control character.
pub open spec fn filter_acceptable(v: Seq<char>) -> bool {
    encode_utf8(v).len() <= FILTER_LIMIT && forall|i: int| 0 <= i < v.len() ==> !is_control(#[trigger] v[i])
}

/// The options read so far.
pub struct OptionState {
    pub crate_path: Option<Seq<char>>,
    pub filter: Option<Seq<char>>,
    pub keep: bool,
}

/// Reads the options in `rest` after those already read into `st`.
pub open spec fn options_spec(rest: Seq<Seq<char>>, st: OptionState) -> Result<OptionState, Seq<char>>
    decreases rest.len(),
{
    if rest.len() == 0 {
        Ok(st)
    } else {
        let arg = rest[0];
        if arg == "--crate"@ {
            if rest.len() < 2 {
                Err("--crate requires a path"@)
            } else if st.crate_path is Some {
                Err("--crate may be specified only once"@)
            } else {
                options_spec(rest.skip(2), OptionState { crate_path: Some(rest[1]), ..st })
            }
        } else if arg == "--filter"@ {
            if rest.len() < 2 {
                Err("--filter requires a substring"@)
            } else if rest[1].len() == 0 {
                Err("--filter cannot be empty"@)
            } else if !filter_acceptable(rest[1]) {
                Err("--filter must be at most 128 bytes and contain no control characters"@)
            } else if st.filter is Some {
                Err("--filter may be specified only once"@)
            } else {
                options_spec(rest.skip(2), OptionState { filter: Some(rest[1]), ..st })
            }
        } else if arg == "--keep"@ && !st.keep {
            options_spec(rest.skip(1), OptionState { keep: true, ..st })
        } else {
            Err("unknown argument: "@ + arg + "\n"@ + usage_text())
        }
    }
}

/// What the command line `args` (without the program name) asks for.
pub open spec fn parse_args_spec(args: Seq<Seq<char>>) -> Result<ArgsModel, Seq<char>> {
    if args.len() == 0 {
        Err(usage_text())
    } else {
        let name = args[0];
        let is_test = name == "test"@;
        if is_test && args.len() < 2 {
            Err(usage_text())
        } else {
            let first_option = if is_test { 2int } else { 1int };
            match options_spec(args.skip(first_option), OptionState { crate_path: None, filter: None, keep: false }) {
                Err(m) => Err(m),
                Ok(st) => {
                    let command: Result<CommandModel, Seq<char>> = if name == "doctor"@ {
                        Ok(CommandModel::Doctor)
                    } else if name == "clean"@ {
                        Ok(CommandModel::Clean)
                    } else if is_test {
                        if args[1] == "all"@ {
                            Ok(CommandModel::Test(all_targets()))
                        } else {
                            match target_named(args[1]) {
                                Some(t) => Ok(CommandModel::Test(seq![t])),
                                None => Err("unknown test target: "@ + args[1]),
                            }
                        }
                    } else {
                        Err(usage_text())
                    };
                    match command {
                        Err(m) => Err(m),
                        Ok(c) => if !(c is Test) && (st.filter is Some || st.keep) {
                            Err("--filter and --keep are valid only with test"@)
                        } else if !(c is Clean) && st.crate_path is None {
                            Err("--crate <path> is required for doctor and test"@)
                        } else if c is Clean && st.crate_path is Some {
                            Err("--crate is not valid with clean"@)
                        } else {
                            Ok(ArgsModel { command: c, crate_path: st.crate_path, filter: st.filter, keep: st.keep })
                        }
                    }
                },
            }
        }
    }
}

/// Every target is named on the command line as in reports, and a full run
/// tests each target once.
pub proof fn lemma_target_names_round_trip(t: Target)
    ensures
        target_named(target_name(t)) == Some(t),
        all_targets().contains(t),
        all_targets().no_duplicates(),
{
    reveal_strlit("ns-el2");
    reveal_strlit("secure-el2");
    reveal_strlit("realm-el2");
    reveal_strlit("realm-stage2");
    reveal_strlit("root-el3");
    // The names differ in length.
    assert("ns-el2"@.len() == 6 && "secure-el2"@.len() == 10 && "realm-el2"@.len() == 9);
    assert("realm-stage2"@.len() == 12 && "root-el3"@.len() == 8);
    let a = all_targets();
    match t {
        Target::NsEl2 => assert(a[0] == t),
        Target::SecureEl2 => assert(a[1] == t),
        Target::RealmEl2 => assert(a[2] == t),
        Target::RealmStage2 => assert(a[3] == t),
        Target::RootEl3 => assert(a[4] == t),
    }
}

/// Options that were read keep a filter that is accepted.
proof fn lemma_options_keep_filter_acceptable(rest: Seq<Seq<char>>, st: OptionState)
    requires
        options_spec(rest, st) is Ok,
        st.filter matches Some(f) ==> f.len() > 0 && filter_acceptable(f),
    ensures
        options_spec(rest, st)->Ok_0.filter matches Some(f) ==> f.len() > 0 && filter_acceptable(f),
    decreases rest.len(),
{
    if rest.len() > 0 {
        let arg = rest[0];
        if arg == "--crate"@ {
            lemma_options_keep_filter_acceptable(rest.skip(2), OptionState { crate_path: Some(rest[1]), ..st });
        } else if arg == "--filter"@ {
            lemma_options_keep_filter_acceptable(rest.skip(2), OptionState { filter: Some(rest[1]), ..st });
        } else if arg == "--keep"@ && !st.keep {
            lemma_options_keep_filter_acceptable(rest.skip(1), OptionState { keep: true, ..st });
        }
    }
}

/// What every accepted command line satisfies: `clean` takes no crate and the
/// other commands need one; `--filter` and `--keep` come only with `test`; a
/// filter is a non-empty text of at most 128 bytes without control characters;
/// and a test runs one target, or all of them in their fixed order.
pub proof fn lemma_accepted_arguments(args: Seq<Seq<char>>)
    requires
        parse_args_spec(args) is Ok,
    ensures
        ({
            let m = parse_args_spec(args)->Ok_0;
            &&& (m.command is Clean) == (m.crate_path is None)
            &&& !(m.command is Test) ==> m.filter is None && !m.keep
            &&& m.filter matches Some(f) ==> f.len() > 0 && filter_acceptable(f)
            &&& m.command matches CommandModel::Test(ts) ==> ts == all_targets() || exists|t: Target| ts == seq![t]
        }),
{
    let first_option = if args[0] == "test"@ { 2int } else { 1int };
    lemma_options_keep_filter_acceptable(
        args.skip(first_option),
        OptionState { crate_path: None, filter: None, keep: false },
    );
    if let CommandModel::Test(ts) = parse_args_spec(args)->Ok_0.command {
        if ts != all_targets() {
            let t = target_named(args[1])->Some_0;
            assert(ts == seq![t]);
        }
    }
}

pub open spec fn string_seq_views(v: Seq<String>) -> Seq<Seq<char>> {
    v.map_values(|s: String| s@)
}

fn usage() -> (r: String)
    ensures
        r@ == usage_text(),
{
    String::from_str("usage: vmsa-test doctor --crate <path>\n       vmsa-test test <ns-el2|secure-el2|realm-el2|realm-stage2|root-el3|all> --crate <path> [--filter <substring>] [--keep]\n       vmsa-test clean")
}

fn filter_is_acceptable(value: &String) -> (r: bool)
    ensures
        r == filter_acceptable(value@),
{
    if value.as_str().as_bytes().len() > FILTER_LIMIT {
        return false;
    }
    let cs = chars_of(value.as_str());
    let mut i: usize = 0;
    while i < cs.len()
        invariant
            i <= cs@.len(),
            cs@ == value@,
            forall|j: int| 0 <= j < i ==> !is_control(#[trigger] cs@[j]),
        decreases cs@.len() - i,
    {
        let c = cs[i];
        if c <= '\u{1F}' || ('\u{7F}' <= c && c <= '\u{9F}') {
            return false;
        }
        i = i + 1;
    }
    true
}

fn copy_string(s: &String) -> (r: String)
    ensures
        r@ == s@,
{
    String::from_str(s.as_str())
}

impl Args {
    /// Reads the command line `arguments`, the program name left out.
    pub fn parse_from(arguments: Vec<String>) -> (r: Result<Self, String>)
        ensures
            match parse_args_spec(string_seq_views(arguments@)) {
                Ok(m) => r is Ok && r->Ok_0@ == m,
                Err(msg) => r is Err && r->Err_0@ == msg,
            },
    {
        let ghost all = string_seq_views(arguments@);
        if arguments.len() == 0 {
            return Err(usage());
        }
        let name = chars_of(arguments[0].as_str());
        assert(all[0] == name@);
        let is_test = same_chars(name.as_slice(), chars_of("test").as_slice());
        if is_test && arguments.len() < 2 {
            return Err(usage());
        }
        let first_option: usize = if is_test { 2 } else { 1 };
        let ghost init = OptionState { crate_path: None, filter: None, keep: false };
        let mut crate_path: Option<String> = None;
        let mut filter: Option<String> = None;
        let mut keep = false;
        let mut i = first_option;
        assert(all.skip(first_option as int).len() == all.len() - first_option);
        while i < arguments.len()
            invariant
                first_option <= i <= arguments@.len(),
                all == string_seq_views(arguments@),
                all.len() == arguments@.len(),
                init == (OptionState { crate_path: None, filter: None, keep: false }),
                all.len() > 0,
                is_test == (all[0] == "test"@),
                first_option == (if is_test { 2int } else { 1int }),
                options_spec(all.skip(first_option as int), init) == options_spec(
                    all.skip(i as int),
                    OptionState { crate_path: opt_chars(crate_path), filter: opt_chars(filter), keep },
                ),
            decreases arguments@.len() - i,
        {
            let ghost st = OptionState { crate_path: opt_chars(crate_path), filter: opt_chars(filter), keep };
            let ghost rest = all.skip(i as int);
            let arg = chars_of(arguments[i].as_str());
            assert(rest[0] == arg@);
            assert(rest.len() == arguments@.len() - i);
            if same_chars(arg.as_slice(), chars_of("--crate").as_slice()) {
                if i + 1 >= arguments.len() {
                    assert(rest[0] == "--crate"@);
                    assert(options_spec(rest, st) == Err::<OptionState, Seq<char>>("--crate requires a path"@));
                    return Err(String::from_str("--crate requires a path"));
                }
                assert(rest[1] == arguments@[i + 1]@);
                if crate_path.is_some() {
                    return Err(String::from_str("--crate may be specified only once"));
                }
                crate_path = Some(copy_string(&arguments[i + 1]));
                assert(rest.skip(2) =~= all.skip(i + 2));
                i = i + 2;
            } else if same_chars(arg.as_slice(), chars_of("--filter").as_slice()) {
                if i + 1 >= arguments.len() {
                    return Err(String::from_str("--filter requires a substring"));
                }
                let value = &arguments[i + 1];
                assert(rest[1] == value@);
                if value.as_str().is_empty() {
                    return Err(String::from_str("--filter cannot be empty"));
                }
                if !filter_is_acceptable(value) {
                    return Err(String::from_str(
                        "--filter must be at most 128 bytes and contain no control characters",
                    ));
                }
                if filter.is_some() {
                    return Err(String::from_str("--filter may be specified only once"));
                }
                filter = Some(copy_string(value));
                assert(rest.skip(2) =~= all.skip(i + 2));
                i = i + 2;
            } else if same_chars(arg.as_slice(), chars_of("--keep").as_slice()) && !keep {
                keep = true;
                assert(rest.skip(1) =~= all.skip(i + 1));
                i = i + 1;
            } else {
                let mut m = String::from_str("unknown argument: ");
                m.append(arguments[i].as_str());
                m.append("\n");
                m.append(usage().as_str());
                return Err(m);
            }
        }
        assert(all.skip(i as int).len() == 0);
        let command = if same_chars(name.as_slice(), chars_of("doctor").as_slice()) {
            Command::Doctor
        } else if same_chars(name.as_slice(), chars_of("clean").as_slice()) {
            Command::Clean
        } else if is_test {
            let value = chars_of(arguments[1].as_str());
            assert(all[1] == value@);
            if same_chars(value.as_slice(), chars_of("all").as_slice()) {
                let all_list = Target::all();
                let mut v: Vec<Target> = Vec::new();
                let mut k: usize = 0;
                while k < 5
                    invariant
                        k <= 5,
                        all_list@ == all_targets(),
                        v@ == all_targets().take(k as int),
                    decreases 5 - k,
                {
                    v.push(all_list[k]);
                    assert(all_targets().take(k as int).push(all_targets()[k as int]) =~= all_targets().take(k + 1));
                    k = k + 1;
                }
                assert(all_targets().take(5) =~= all_targets());
                Command::Test(v)
            } else {
                match Target::parse(value.as_slice()) {
                    Some(t) => {
                        let v = vec![t];
                        assert(v@ =~= seq![t]);
                        Command::Test(v)
                    },
                    None => return Err(concat("unknown test target: ", arguments[1].as_str())),
                }
            }
        } else {
            return Err(usage());
        };
        let is_test_command = match command {
            Command::Test(_) => true,
            _ => false,
        };
        let is_clean = match command {
            Command::Clean => true,
            _ => false,
        };
        if !is_test_command && (filter.is_some() || keep) {
            return Err(String::from_str("--filter and --keep are valid only with test"));
        }
        if !is_clean && crate_path.is_none() {
            return Err(String::from_str("--crate <path> is required for doctor and test"));
        }
        if is_clean && crate_path.is_some() {
            return Err(String::from_str("--crate is not valid with clean"));
        }
        Ok(Args { command, crate_path, filter, keep })
    }
}

} // verus!
