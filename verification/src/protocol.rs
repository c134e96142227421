//! The strict line protocol that the guest harness prints on its console.
//!
//! A protocol line starts with `@@VMSA`, a space and a record kind. A stream is
//! `BEGIN`, then capability records and test records, then `END`. The parser
//! checks every record against what came before it and keeps the counts.
use vstd::prelude::*;
use vstd::string::StringExecFns;
use vstd::utf8::encode_utf8;
use crate::text::{
    ascii_words, chars_of, concat, decimal, find, find_char, parse_unsigned, parse_unsigned_chars,
    push_chars, push_decimal, same_chars, split_words, starts_with, string_of, sub_chars, views, is_word,
    pow10, lemma_words_space, lemma_words_last, lemma_decimal_digits, lemma_ascii_utf8_len,
    lemma_find_char_at, joined, lemma_joined_words, digits_value,
};

verus! {

/// The longest protocol line, in bytes.
pub const PROTOCOL_LINE_LIMIT: usize = 512;

/// The only protocol version the parser accepts.
pub const PROTOCOL_VERSION: u32 = 1;

/// The longest test, target or capability name, in bytes.
pub const TEST_NAME_LIMIT: usize = 128;

/// Test counters of one result stream.
#[derive(Clone, Copy, Debug, PartialEq, Eq, Structural)]
pub struct Counts {
    pub passed: u32,
    pub failed: u32,
    pub skipped: u32,
}

/// One accepted protocol record.
#[derive(Clone, Debug, PartialEq, Eq)]
pub enum Event {
    Begin { target: String },
    Capability { name: String, value: u64 },
    Run { name: String },
    Pass { name: String },
    Fail { name: String, reason: String },
    Skip { name: String, reason: String },
    End(Counts),
}

/// The mathematical value of an [`Event`]: its texts as character sequences.
pub enum EventModel {
    Begin { target: Seq<char> },
    Capability { name: Seq<char>, value: u64 },
    Run { name: Seq<char> },
    Pass { name: Seq<char> },
    Fail { name: Seq<char>, reason: Seq<char> },
    Skip { name: Seq<char>, reason: Seq<char> },
    End(Counts),
}

impl View for Event {
    type V = EventModel;

    open spec fn view(&self) -> EventModel {
        match self {
            Event::Begin { target } => EventModel::Begin { target: target@ },
            Event::Capability { name, value } => EventModel::Capability { name: name@, value: *value },
            Event::Run { name } => EventModel::Run { name: name@ },
            Event::Pass { name } => EventModel::Pass { name: name@ },
            Event::Fail { name, reason } => EventModel::Fail { name: name@, reason: reason@ },
            Event::Skip { name, reason } => EventModel::Skip { name: name@, reason: reason@ },
            Event::End(counts) => EventModel::End(*counts),
        }
    }
}

/// Strict, stateful reader of one result stream.
#[derive(Debug)]
pub struct Parser {
    began: bool,
    ended: bool,
    active: Option<String>,
    completed: Vec<String>,
    counts: Counts,
    target: Option<String>,
}

/// The state of a [`Parser`]: what it has seen of the stream.
#[verifier::ext_equal]
pub struct ParserModel {
    pub began: bool,
    pub ended: bool,
    /// The test that has run and not yet completed.
    pub active: Option<Seq<char>>,
    /// Every test that has passed, failed or been skipped.
    pub completed: Set<Seq<char>>,
    pub counts: Counts,
    /// The target that `BEGIN` named.
    pub target: Option<Seq<char>>,
}

/// The character sequences held by a sequence of strings.
pub open spec fn string_views(v: Seq<String>) -> Seq<Seq<char>> {
    v.map_values(|s: String| s@)
}

pub open spec fn opt_view(o: Option<String>) -> Option<Seq<char>> {
    match o {
        Some(s) => Some(s@),
        None => None,
    }
}

impl View for Parser {
    type V = ParserModel;

    closed spec fn view(&self) -> ParserModel {
        ParserModel {
            began: self.began,
            ended: self.ended,
            active: opt_view(self.active),
            completed: string_views(self.completed@).to_set(),
            counts: self.counts,
            target: opt_view(self.target),
        }
    }
}

pub open spec fn zero_counts() -> Counts {
    Counts { passed: 0, failed: 0, skipped: 0 }
}

/// The state before any line.
pub open spec fn initial_model() -> ParserModel {
    ParserModel {
        began: false,
        ended: false,
        active: None,
        completed: Set::empty(),
        counts: zero_counts(),
        target: None,
    }
}

/// The text that opens every protocol line.
pub open spec fn result_prefix() -> Seq<char> {
    "@@VMSA"@
}

pub open spec fn is_name_char(c: char) -> bool {
    ('a' <= c <= 'z') || ('A' <= c <= 'Z') || ('0' <= c <= '9') || c == '.' || c == '-' || c == '_'
}

/// A name is at most 128 bytes of ASCII letters, digits, `.`, `-` and `_`.
/// Such names are ASCII, so their byte length is their character count.
pub open spec fn is_protocol_name(s: Seq<char>) -> bool {
    s.len() <= TEST_NAME_LIMIT && forall|i: int| 0 <= i < s.len() ==> is_name_char(#[trigger] s[i])
}

/// `raw` split at its first `=`.
pub open spec fn split_field(raw: Seq<char>) -> Option<(Seq<char>, Seq<char>)> {
    let k = find_char(raw, '=');
    if k < raw.len() {
        Some((raw.take(k as int), raw.skip(k as int + 1)))
    } else {
        None
    }
}

pub open spec fn msg_malformed_field(raw: Seq<char>) -> Seq<char> {
    "malformed field: "@ + raw
}

/// The value of the `key=value` field at `words[i]`.
pub open spec fn one_field_spec(words: Seq<Seq<char>>, i: int, key: Seq<char>) -> Result<Seq<char>, Seq<char>> {
    if i >= words.len() {
        Err("missing "@ + key + " field"@)
    } else {
        match split_field(words[i]) {
            None => Err(msg_malformed_field(words[i])),
            Some((k, v)) => if k != key || v.len() == 0 {
                Err("expected non-empty "@ + key + " field"@)
            } else {
                Ok(v)
            },
        }
    }
}

/// The counter in the `key=value` field at `words[i]`.
pub open spec fn numeric_field_spec(words: Seq<Seq<char>>, i: int, key: Seq<char>) -> Result<u32, Seq<char>> {
    match one_field_spec(words, i, key) {
        Err(m) => Err(m),
        Ok(v) => match parse_unsigned(v, u32::MAX as nat) {
            Some(n) => Ok(n as u32),
            None => Err("invalid "@ + key + " counter"@),
        },
    }
}

/// The bare word at `words[i]`: present and free of `=`.
pub open spec fn one_word_spec(words: Seq<Seq<char>>, i: int, description: Seq<char>) -> Result<Seq<char>, Seq<char>> {
    if i < words.len() && words[i].len() > 0 && find_char(words[i], '=') == words[i].len() {
        Ok(words[i])
    } else {
        Err("missing or invalid "@ + description)
    }
}

pub open spec fn protocol_name_spec(value: Seq<char>, description: Seq<char>) -> Result<(), Seq<char>> {
    if is_protocol_name(value) {
        Ok(())
    } else {
        Err("invalid "@ + description + "; expected at most 128 ASCII name bytes"@)
    }
}

/// No word from `words[i]` on.
pub open spec fn no_more_spec(words: Seq<Seq<char>>, i: int) -> Result<(), Seq<char>> {
    if i < words.len() {
        Err("unexpected field: "@ + words[i])
    } else {
        Ok(())
    }
}

/// The `reason=...` field at `words[i]`, the last word.
pub open spec fn required_reason_spec(words: Seq<Seq<char>>, i: int) -> Result<Seq<char>, Seq<char>> {
    if i >= words.len() {
        Err("missing reason field"@)
    } else {
        match split_field(words[i]) {
            None => Err(msg_malformed_field(words[i])),
            Some((k, v)) => if k != "reason"@ || v.len() == 0 {
                Err("expected non-empty reason field"@)
            } else {
                match no_more_spec(words, i + 1) {
                    Err(m) => Err(m),
                    Ok(_) => Ok(v),
                }
            },
        }
    }
}

/// Every word from `words[i]` on is a `key=value` field with a non-empty key;
/// else the first word that is not.
pub open spec fn fields_from_spec(words: Seq<Seq<char>>, i: int) -> Result<(), Seq<char>>
    decreases words.len() - i,
{
    if i < 0 || i >= words.len() {
        Ok(())
    } else {
        match split_field(words[i]) {
            Some((k, v)) => if k.len() > 0 {
                fields_from_spec(words, i + 1)
            } else {
                Err(msg_malformed_field(words[i]))
            },
            None => Err(msg_malformed_field(words[i])),
        }
    }
}

/// The `reason=...` field at `words[i]` of a failure, which further
/// `key=value` fields (such as `expected=` and `actual=`) may follow.
pub open spec fn fail_reason_spec(words: Seq<Seq<char>>, i: int) -> Result<Seq<char>, Seq<char>> {
    if i >= words.len() {
        Err("missing reason field"@)
    } else {
        match split_field(words[i]) {
            None => Err(msg_malformed_field(words[i])),
            Some((k, v)) => if k != "reason"@ || v.len() == 0 {
                Err("expected non-empty reason field"@)
            } else {
                match fields_from_spec(words, i + 1) {
                    Err(m) => Err(m),
                    Ok(_) => Ok(v),
                }
            },
        }
    }
}

pub open spec fn ensure_idle_spec(p: ParserModel) -> Result<(), Seq<char>> {
    match p.active {
        Some(name) => Err("record while test is active: "@ + name),
        None => Ok(()),
    }
}

/// The name of a completion record, which must be the active test.
pub open spec fn completion_name_spec(p: ParserModel, words: Seq<Seq<char>>) -> Result<Seq<char>, Seq<char>> {
    match one_word_spec(words, 1, "test completion name"@) {
        Err(m) => Err(m),
        Ok(name) => match protocol_name_spec(name, "test completion name"@) {
            Err(m) => Err(m),
            Ok(_) => match p.active {
                Some(active) => if active == name {
                    Ok(name)
                } else {
                    Err("completion for "@ + name + " while "@ + active + " is active"@)
                },
                None => Err("completion without RUN: "@ + name),
            },
        },
    }
}

pub open spec fn msg_duplicate_completion(name: Seq<char>) -> Seq<char> {
    "duplicate test completion: "@ + name
}

/// Records `name` as completed and clears the active test.
pub open spec fn finish_completion_spec(p: ParserModel, name: Seq<char>) -> (ParserModel, Result<(), Seq<char>>) {
    if p.completed.contains(name) {
        (p, Err(msg_duplicate_completion(name)))
    } else {
        (ParserModel { completed: p.completed.insert(name), active: None, ..p }, Ok(()))
    }
}

/// `Counts { passed: .., failed: .., skipped: .. }`, as `{:?}` writes it.
pub open spec fn counts_debug(c: Counts) -> Seq<char> {
    "Counts { passed: "@ + decimal(c.passed as nat) + ", failed: "@ + decimal(c.failed as nat)
        + ", skipped: "@ + decimal(c.skipped as nat) + " }"@
}

pub open spec fn with_counts(p: ParserModel, c: Counts) -> ParserModel {
    ParserModel { counts: c, ..p }
}

pub open spec fn begin_step(p: ParserModel, words: Seq<Seq<char>>) -> (ParserModel, Result<Option<EventModel>, Seq<char>>) {
    if p.began {
        (p, Err("duplicate BEGIN"@))
    } else {
        match numeric_field_spec(words, 1, "protocol"@) {
            Err(m) => (p, Err(m)),
            Ok(version) => if version != PROTOCOL_VERSION {
                (p, Err("unsupported protocol version "@ + decimal(version as nat) + "; expected 1"@))
            } else {
                match one_field_spec(words, 2, "target"@) {
                    Err(m) => (p, Err(m)),
                    Ok(target) => match protocol_name_spec(target, "target"@) {
                        Err(m) => (p, Err(m)),
                        Ok(_) => match no_more_spec(words, 3) {
                            Err(m) => (p, Err(m)),
                            Ok(_) => (
                                ParserModel { began: true, target: Some(target), ..p },
                                Ok(Some(EventModel::Begin { target })),
                            ),
                        },
                    },
                }
            },
        }
    }
}

pub open spec fn capability_step(p: ParserModel, words: Seq<Seq<char>>) -> Result<Option<EventModel>, Seq<char>> {
    match ensure_idle_spec(p) {
        Err(m) => Err(m),
        Ok(_) => if words.len() < 2 {
            Err("CAP requires one field"@)
        } else {
            match no_more_spec(words, 2) {
                Err(m) => Err(m),
                Ok(_) => match split_field(words[1]) {
                    None => Err(msg_malformed_field(words[1])),
                    Some((name, raw)) => if name.len() == 0 {
                        Err("empty capability name"@)
                    } else {
                        match protocol_name_spec(name, "capability name"@) {
                            Err(m) => Err(m),
                            Ok(_) => match parse_unsigned(raw, u64::MAX as nat) {
                                None => Err("invalid capability value"@),
                                Some(value) => Ok(Some(EventModel::Capability { name, value: value as u64 })),
                            },
                        }
                    },
                },
            }
        },
    }
}

pub open spec fn run_step(p: ParserModel, words: Seq<Seq<char>>) -> (ParserModel, Result<Option<EventModel>, Seq<char>>) {
    match ensure_idle_spec(p) {
        Err(m) => (p, Err(m)),
        Ok(_) => match one_word_spec(words, 1, "RUN test name"@) {
            Err(m) => (p, Err(m)),
            Ok(name) => match protocol_name_spec(name, "RUN test name"@) {
                Err(m) => (p, Err(m)),
                Ok(_) => match no_more_spec(words, 2) {
                    Err(m) => (p, Err(m)),
                    Ok(_) => if p.completed.contains(name) {
                        (p, Err("test run twice: "@ + name))
                    } else {
                        (ParserModel { active: Some(name), ..p }, Ok(Some(EventModel::Run { name })))
                    },
                },
            },
        },
    }
}

pub open spec fn pass_step(p: ParserModel, words: Seq<Seq<char>>) -> (ParserModel, Result<Option<EventModel>, Seq<char>>) {
    match completion_name_spec(p, words) {
        Err(m) => (p, Err(m)),
        Ok(name) => match no_more_spec(words, 2) {
            Err(m) => (p, Err(m)),
            Ok(_) => {
                let (q, done) = finish_completion_spec(p, name);
                match done {
                    Err(m) => (q, Err(m)),
                    Ok(_) => if q.counts.passed == u32::MAX {
                        (q, Err("pass counter overflow"@))
                    } else {
                        (
                            with_counts(q, Counts { passed: (q.counts.passed + 1) as u32, ..q.counts }),
                            Ok(Some(EventModel::Pass { name })),
                        )
                    },
                }
            },
        },
    }
}

pub open spec fn fail_step(p: ParserModel, words: Seq<Seq<char>>) -> (ParserModel, Result<Option<EventModel>, Seq<char>>) {
    match completion_name_spec(p, words) {
        Err(m) => (p, Err(m)),
        Ok(name) => match fail_reason_spec(words, 2) {
            Err(m) => (p, Err(m)),
            Ok(reason) => {
                let (q, done) = finish_completion_spec(p, name);
                match done {
                    Err(m) => (q, Err(m)),
                    Ok(_) => if q.counts.failed == u32::MAX {
                        (q, Err("fail counter overflow"@))
                    } else {
                        (
                            with_counts(q, Counts { failed: (q.counts.failed + 1) as u32, ..q.counts }),
                            Ok(Some(EventModel::Fail { name, reason })),
                        )
                    },
                }
            },
        },
    }
}

pub open spec fn skip_step(p: ParserModel, words: Seq<Seq<char>>) -> (ParserModel, Result<Option<EventModel>, Seq<char>>) {
    match ensure_idle_spec(p) {
        Err(m) => (p, Err(m)),
        Ok(_) => match one_word_spec(words, 1, "SKIP test name"@) {
            Err(m) => (p, Err(m)),
            Ok(name) => match protocol_name_spec(name, "SKIP test name"@) {
                Err(m) => (p, Err(m)),
                Ok(_) => if p.completed.contains(name) {
                    (p, Err(msg_duplicate_completion(name)))
                } else {
                    match required_reason_spec(words, 2) {
                        Err(m) => (p, Err(m)),
                        Ok(reason) => {
                            let q = ParserModel { completed: p.completed.insert(name), ..p };
                            if q.counts.skipped == u32::MAX {
                                (q, Err("skip counter overflow"@))
                            } else {
                                (
                                    with_counts(q, Counts { skipped: (q.counts.skipped + 1) as u32, ..q.counts }),
                                    Ok(Some(EventModel::Skip { name, reason })),
                                )
                            }
                        },
                    }
                },
            },
        },
    }
}

pub open spec fn end_step(p: ParserModel, words: Seq<Seq<char>>) -> (ParserModel, Result<Option<EventModel>, Seq<char>>) {
    match ensure_idle_spec(p) {
        Err(m) => (p, Err(m)),
        Ok(_) => match numeric_field_spec(words, 1, "passed"@) {
            Err(m) => (p, Err(m)),
            Ok(passed) => match numeric_field_spec(words, 2, "failed"@) {
                Err(m) => (p, Err(m)),
                Ok(failed) => match numeric_field_spec(words, 3, "skipped"@) {
                    Err(m) => (p, Err(m)),
                    Ok(skipped) => match no_more_spec(words, 4) {
                        Err(m) => (p, Err(m)),
                        Ok(_) => {
                            let declared = Counts { passed, failed, skipped };
                            if declared != p.counts {
                                (p, Err("END counters "@ + counts_debug(declared) + " do not match observed "@
                                    + counts_debug(p.counts)))
                            } else {
                                (ParserModel { ended: true, ..p }, Ok(Some(EventModel::End(declared))))
                            }
                        },
                    },
                },
            },
        },
    }
}

/// The record named by `words[0]`, read after the checks common to all records.
pub open spec fn record_step(p: ParserModel, words: Seq<Seq<char>>) -> (ParserModel, Result<Option<EventModel>, Seq<char>>) {
    let kind = words[0];
    if kind == "BEGIN"@ {
        begin_step(p, words)
    } else if kind == "CAP"@ {
        (p, capability_step(p, words))
    } else if kind == "RUN"@ {
        run_step(p, words)
    } else if kind == "PASS"@ {
        pass_step(p, words)
    } else if kind == "FAIL"@ {
        fail_step(p, words)
    } else if kind == "SKIP"@ {
        skip_step(p, words)
    } else if kind == "END"@ {
        end_step(p, words)
    } else {
        (p, Err("unknown protocol record: "@ + kind))
    }
}

/// What reading `line` in state `p` gives: the next state and the line's outcome.
/// Lines that do not start with `@@VMSA` are no protocol records and change nothing.
pub open spec fn parse_step(p: ParserModel, line: Seq<char>) -> (ParserModel, Result<Option<EventModel>, Seq<char>>) {
    if !result_prefix().is_prefix_of(line) {
        (p, Ok(None))
    } else if encode_utf8(line).len() > PROTOCOL_LINE_LIMIT {
        (p, Err("protocol line exceeds 512-byte limit"@))
    } else {
        let payload = line.skip(result_prefix().len() as int);
        if payload.len() == 0 || payload[0] != ' ' {
            (p, Err("missing space after protocol prefix"@))
        } else {
            let words = ascii_words(payload.drop_first());
            if words.len() == 0 {
                (p, Err("empty protocol record"@))
            } else if p.ended {
                (p, Err("protocol record after END: "@ + words[0]))
            } else if !p.began && words[0] != "BEGIN"@ {
                (p, Err("protocol record before BEGIN: "@ + words[0]))
            } else {
                record_step(p, words)
            }
        }
    }
}

/// The outcome of [`Parser::finish`] in state `p`.
pub open spec fn finish_spec(p: ParserModel) -> Result<Counts, Seq<char>> {
    if !p.began {
        Err("missing BEGIN"@)
    } else if p.active is Some {
        Err("result stream ended with an active test"@)
    } else if !p.ended {
        Err("missing END"@)
    } else {
        Ok(p.counts)
    }
}

/// `r` is the executable form of the spec outcome `m`.
pub open spec fn outcome_is(r: Result<Option<Event>, String>, m: Result<Option<EventModel>, Seq<char>>) -> bool {
    match m {
        Ok(None) => r == Ok::<Option<Event>, String>(None),
        Ok(Some(e)) => r is Ok && r->Ok_0 is Some && r->Ok_0->Some_0@ == e,
        Err(msg) => r is Err && r->Err_0@ == msg,
    }
}

pub open spec fn str_result_is<T>(r: Result<T, String>, m: Result<T, Seq<char>>) -> bool {
    match m {
        Ok(v) => r == Ok::<T, String>(v),
        Err(msg) => r is Err && r->Err_0@ == msg,
    }
}

pub open spec fn chars_result_is(r: Result<Vec<char>, String>, m: Result<Seq<char>, Seq<char>>) -> bool {
    match m {
        Ok(v) => r is Ok && r->Ok_0@ == v,
        Err(msg) => r is Err && r->Err_0@ == msg,
    }
}

/// `a`, `b` and `c` joined.
fn join3(a: &str, b: &[char], c: &str) -> (r: String)
    ensures
        r@ == a@ + b@ + c@,
{
    let mut r = String::from_str(a);
    push_chars(&mut r, b);
    r.append(c);
    r
}

/// `a` and `b` joined.
fn join2(a: &str, b: &[char]) -> (r: String)
    ensures
        r@ == a@ + b@,
{
    let mut r = String::from_str(a);
    push_chars(&mut r, b);
    r
}

fn split_field_exec(raw: &Vec<char>) -> (r: Option<(Vec<char>, Vec<char>)>)
    ensures
        match split_field(raw@) {
            Some((k, v)) => r is Some && r->Some_0.0@ == k && r->Some_0.1@ == v,
            None => r is None,
        },
{
    let k = find(raw.as_slice(), '=');
    if k < raw.len() {
        Some((sub_chars(raw.as_slice(), 0, k), sub_chars(raw.as_slice(), k + 1, raw.len())))
    } else {
        None
    }
}

fn one_field(words: &Vec<Vec<char>>, i: usize, key: &str) -> (r: Result<Vec<char>, String>)
    ensures
        chars_result_is(r, one_field_spec(views(words@), i as int, key@)),
{
    if i >= words.len() {
        return Err(join3("missing ", chars_of(key).as_slice(), " field"));
    }
    let raw = &words[i];
    assert(views(words@)[i as int] == raw@);
    match split_field_exec(raw) {
        None => Err(join2("malformed field: ", raw.as_slice())),
        Some((k, v)) => {
            let key_chars = chars_of(key);
            if !same_chars(k.as_slice(), key_chars.as_slice()) || v.len() == 0 {
                Err(join3("expected non-empty ", key_chars.as_slice(), " field"))
            } else {
                Ok(v)
            }
        },
    }
}

fn numeric_field(words: &Vec<Vec<char>>, i: usize, key: &str) -> (r: Result<u32, String>)
    ensures
        str_result_is(r, numeric_field_spec(views(words@), i as int, key@)),
{
    let value = one_field(words, i, key)?;
    match parse_unsigned_chars(value.as_slice(), 0xffff_ffff) {
        Some(n) => Ok(n as u32),
        None => Err(join3("invalid ", chars_of(key).as_slice(), " counter")),
    }
}

fn one_word(words: &Vec<Vec<char>>, i: usize, description: &str) -> (r: Result<Vec<char>, String>)
    ensures
        chars_result_is(r, one_word_spec(views(words@), i as int, description@)),
{
    if i < words.len() {
        assert(views(words@)[i as int] == words@[i as int]@);
        let word = &words[i];
        if word.len() > 0 && find(word.as_slice(), '=') == word.len() {
            let copy = sub_chars(word.as_slice(), 0, word.len());
            assert(copy@ =~= word@);
            return Ok(copy);
        }
    }
    Err(concat("missing or invalid ", description))
}

fn protocol_name(value: &Vec<char>, description: &str) -> (r: Result<(), String>)
    ensures
        str_result_is(r, protocol_name_spec(value@, description@)),
{
    let mut i: usize = 0;
    let mut ok = true;
    while i < value.len()
        invariant
            i <= value@.len(),
            ok == forall|j: int| 0 <= j < i ==> is_name_char(#[trigger] value@[j]),
        decreases value@.len() - i,
    {
        let c = value[i];
        let allowed = ('a' <= c && c <= 'z') || ('A' <= c && c <= 'Z') || ('0' <= c && c <= '9') || c == '.'
            || c == '-' || c == '_';
        if !allowed {
            ok = false;
        }
        i = i + 1;
    }
    if ok && value.len() <= TEST_NAME_LIMIT {
        Ok(())
    } else {
        let mut m = concat("invalid ", description);
        m.append("; expected at most 128 ASCII name bytes");
        Err(m)
    }
}

fn no_more(words: &Vec<Vec<char>>, i: usize) -> (r: Result<(), String>)
    ensures
        str_result_is(r, no_more_spec(views(words@), i as int)),
{
    if i < words.len() {
        assert(views(words@)[i as int] == words@[i as int]@);
        Err(join2("unexpected field: ", words[i].as_slice()))
    } else {
        Ok(())
    }
}

fn required_reason(words: &Vec<Vec<char>>, i: usize) -> (r: Result<Vec<char>, String>)
    ensures
        chars_result_is(r, required_reason_spec(views(words@), i as int)),
{
    if i >= words.len() {
        return Err(String::from_str("missing reason field"));
    }
    let raw = &words[i];
    assert(views(words@)[i as int] == raw@);
    match split_field_exec(raw) {
        None => Err(join2("malformed field: ", raw.as_slice())),
        Some((k, v)) => {
            let reason = chars_of("reason");
            if !same_chars(k.as_slice(), reason.as_slice()) || v.len() == 0 {
                Err(String::from_str("expected non-empty reason field"))
            } else {
                no_more(words, i + 1)?;
                Ok(v)
            }
        },
    }
}

fn fields_from(words: &Vec<Vec<char>>, i: usize) -> (r: Result<(), String>)
    ensures
        str_result_is(r, fields_from_spec(views(words@), i as int)),
{
    if i >= words.len() {
        return Ok(());
    }
    let mut j = i;
    while j < words.len()
        invariant
            i <= j <= words@.len(),
            fields_from_spec(views(words@), i as int) == fields_from_spec(views(words@), j as int),
        decreases words@.len() - j,
    {
        let raw = &words[j];
        assert(views(words@)[j as int] == raw@);
        match split_field_exec(raw) {
            Some((k, _)) => {
                if k.len() == 0 {
                    return Err(join2("malformed field: ", raw.as_slice()));
                }
            },
            None => {
                return Err(join2("malformed field: ", raw.as_slice()));
            },
        }
        j = j + 1;
    }
    Ok(())
}

fn fail_reason(words: &Vec<Vec<char>>, i: usize) -> (r: Result<Vec<char>, String>)
    ensures
        chars_result_is(r, fail_reason_spec(views(words@), i as int)),
{
    if i >= words.len() {
        return Err(String::from_str("missing reason field"));
    }
    let raw = &words[i];
    assert(views(words@)[i as int] == raw@);
    match split_field_exec(raw) {
        None => Err(join2("malformed field: ", raw.as_slice())),
        Some((k, v)) => {
            let reason = chars_of("reason");
            if !same_chars(k.as_slice(), reason.as_slice()) || v.len() == 0 {
                Err(String::from_str("expected non-empty reason field"))
            } else {
                fields_from(words, i + 1)?;
                Ok(v)
            }
        },
    }
}

/// `{:?}` text of `c`.
fn push_counts_debug(out: &mut String, c: Counts)
    ensures
        final(out)@ == old(out)@ + counts_debug(c),
{
    let ghost start = out@;
    out.append("Counts { passed: ");
    push_decimal(out, c.passed as u64);
    out.append(", failed: ");
    push_decimal(out, c.failed as u64);
    out.append(", skipped: ");
    push_decimal(out, c.skipped as u64);
    out.append(" }");
    assert(out@ =~= start + counts_debug(c));
}

impl Parser {
    /// A parser that has seen no line.
    pub fn new() -> (r: Self)
        ensures
            r@ == initial_model(),
    {
        let r = Parser {
            began: false,
            ended: false,
            active: None,
            completed: Vec::new(),
            counts: Counts { passed: 0, failed: 0, skipped: 0 },
            target: None,
        };
        assert(string_views(r.completed@).to_set() =~= Set::empty());
        r
    }

    fn has_completed(&self, name: &Vec<char>) -> (r: bool)
        ensures
            r == self@.completed.contains(name@),
    {
        let mut i: usize = 0;
        while i < self.completed.len()
            invariant
                i <= self.completed@.len(),
                forall|j: int| 0 <= j < i ==> self.completed@[j]@ != name@,
            decreases self.completed@.len() - i,
        {
            let entry = chars_of(self.completed[i].as_str());
            if same_chars(entry.as_slice(), name.as_slice()) {
                assert(string_views(self.completed@)[i as int] == name@);
                return true;
            }
            i = i + 1;
        }
        assert forall|j: int| 0 <= j < self.completed@.len() implies
            #[trigger] string_views(self.completed@)[j] != name@ by {}
        false
    }

    fn insert_completed(&mut self, name: &Vec<char>)
        ensures
            final(self)@ == (ParserModel { completed: old(self)@.completed.insert(name@), ..old(self)@ }),
    {
        let ghost before = string_views(self.completed@);
        self.completed.push(string_of(name.as_slice()));
        assert(string_views(self.completed@) =~= before + seq![name@]);
        proof { Seq::lemma_to_set_insert_commutes(before, name@); }
        assert(self@.completed =~= old(self)@.completed.insert(name@));
    }

    fn ensure_idle(&self) -> (r: Result<(), String>)
        ensures
            str_result_is(r, ensure_idle_spec(self@)),
    {
        match &self.active {
            Some(name) => Err(concat("record while test is active: ", name.as_str())),
            None => Ok(()),
        }
    }

    fn completion_name_first(&self, words: &Vec<Vec<char>>) -> (r: Result<Vec<char>, String>)
        ensures
            chars_result_is(r, completion_name_spec(self@, views(words@))),
    {
        let name = one_word(words, 1, "test completion name")?;
        protocol_name(&name, "test completion name")?;
        match &self.active {
            Some(active) => {
                let active_chars = chars_of(active.as_str());
                if same_chars(active_chars.as_slice(), name.as_slice()) {
                    Ok(name)
                } else {
                    let mut m = join3("completion for ", name.as_slice(), " while ");
                    push_chars(&mut m, active_chars.as_slice());
                    m.append(" is active");
                    Err(m)
                }
            },
            None => Err(join2("completion without RUN: ", name.as_slice())),
        }
    }

    fn finish_completion(&mut self, name: &Vec<char>) -> (r: Result<(), String>)
        ensures
            final(self)@ == finish_completion_spec(old(self)@, name@).0,
            str_result_is(r, finish_completion_spec(old(self)@, name@).1),
    {
        if self.has_completed(name) {
            return Err(join2("duplicate test completion: ", name.as_slice()));
        }
        self.insert_completed(name);
        self.active = None;
        Ok(())
    }

    fn parse_begin(&mut self, words: &Vec<Vec<char>>) -> (r: Result<Option<Event>, String>)
        ensures
            final(self)@ == begin_step(old(self)@, views(words@)).0,
            outcome_is(r, begin_step(old(self)@, views(words@)).1),
    {
        if self.began {
            return Err(String::from_str("duplicate BEGIN"));
        }
        let version = numeric_field(words, 1, "protocol")?;
        if version != PROTOCOL_VERSION {
            let mut m = String::from_str("unsupported protocol version ");
            push_decimal(&mut m, version as u64);
            m.append("; expected 1");
            return Err(m);
        }
        let target = one_field(words, 2, "target")?;
        protocol_name(&target, "target")?;
        no_more(words, 3)?;
        self.began = true;
        self.target = Some(string_of(target.as_slice()));
        Ok(Some(Event::Begin { target: string_of(target.as_slice()) }))
    }

    fn parse_capability(&self, words: &Vec<Vec<char>>) -> (r: Result<Option<Event>, String>)
        ensures
            outcome_is(r, capability_step(self@, views(words@))),
    {
        self.ensure_idle()?;
        if words.len() < 2 {
            return Err(String::from_str("CAP requires one field"));
        }
        no_more(words, 2)?;
        let field = &words[1];
        assert(views(words@)[1] == field@);
        match split_field_exec(field) {
            None => Err(join2("malformed field: ", field.as_slice())),
            Some((name, raw)) => {
                if name.len() == 0 {
                    return Err(String::from_str("empty capability name"));
                }
                protocol_name(&name, "capability name")?;
                match parse_unsigned_chars(raw.as_slice(), 0xffff_ffff_ffff_ffff) {
                    None => Err(String::from_str("invalid capability value")),
                    Some(value) => Ok(Some(Event::Capability { name: string_of(name.as_slice()), value })),
                }
            },
        }
    }

    fn parse_run(&mut self, words: &Vec<Vec<char>>) -> (r: Result<Option<Event>, String>)
        ensures
            final(self)@ == run_step(old(self)@, views(words@)).0,
            outcome_is(r, run_step(old(self)@, views(words@)).1),
    {
        self.ensure_idle()?;
        let name = one_word(words, 1, "RUN test name")?;
        protocol_name(&name, "RUN test name")?;
        no_more(words, 2)?;
        if self.has_completed(&name) {
            return Err(join2("test run twice: ", name.as_slice()));
        }
        self.active = Some(string_of(name.as_slice()));
        Ok(Some(Event::Run { name: string_of(name.as_slice()) }))
    }

    fn parse_pass(&mut self, words: &Vec<Vec<char>>) -> (r: Result<Option<Event>, String>)
        ensures
            final(self)@ == pass_step(old(self)@, views(words@)).0,
            outcome_is(r, pass_step(old(self)@, views(words@)).1),
    {
        let name = self.completion_name_first(words)?;
        no_more(words, 2)?;
        self.finish_completion(&name)?;
        if self.counts.passed == u32::MAX {
            return Err(String::from_str("pass counter overflow"));
        }
        self.counts.passed = self.counts.passed + 1;
        Ok(Some(Event::Pass { name: string_of(name.as_slice()) }))
    }

    fn parse_fail(&mut self, words: &Vec<Vec<char>>) -> (r: Result<Option<Event>, String>)
        ensures
            final(self)@ == fail_step(old(self)@, views(words@)).0,
            outcome_is(r, fail_step(old(self)@, views(words@)).1),
    {
        let name = self.completion_name_first(words)?;
        let reason = fail_reason(words, 2)?;
        self.finish_completion(&name)?;
        if self.counts.failed == u32::MAX {
            return Err(String::from_str("fail counter overflow"));
        }
        self.counts.failed = self.counts.failed + 1;
        Ok(Some(Event::Fail { name: string_of(name.as_slice()), reason: string_of(reason.as_slice()) }))
    }

    fn parse_skip(&mut self, words: &Vec<Vec<char>>) -> (r: Result<Option<Event>, String>)
        ensures
            final(self)@ == skip_step(old(self)@, views(words@)).0,
            outcome_is(r, skip_step(old(self)@, views(words@)).1),
    {
        self.ensure_idle()?;
        let name = one_word(words, 1, "SKIP test name")?;
        protocol_name(&name, "SKIP test name")?;
        if self.has_completed(&name) {
            return Err(join2("duplicate test completion: ", name.as_slice()));
        }
        let reason = required_reason(words, 2)?;
        self.insert_completed(&name);
        if self.counts.skipped == u32::MAX {
            return Err(String::from_str("skip counter overflow"));
        }
        self.counts.skipped = self.counts.skipped + 1;
        Ok(Some(Event::Skip { name: string_of(name.as_slice()), reason: string_of(reason.as_slice()) }))
    }

    fn parse_end(&mut self, words: &Vec<Vec<char>>) -> (r: Result<Option<Event>, String>)
        ensures
            final(self)@ == end_step(old(self)@, views(words@)).0,
            outcome_is(r, end_step(old(self)@, views(words@)).1),
    {
        self.ensure_idle()?;
        let passed = numeric_field(words, 1, "passed")?;
        let failed = numeric_field(words, 2, "failed")?;
        let skipped = numeric_field(words, 3, "skipped")?;
        no_more(words, 4)?;
        let declared = Counts { passed, failed, skipped };
        if declared != self.counts {
            let mut m = String::from_str("END counters ");
            push_counts_debug(&mut m, declared);
            m.append(" do not match observed ");
            push_counts_debug(&mut m, self.counts);
            return Err(m);
        }
        self.ended = true;
        Ok(Some(Event::End(declared)))
    }

    /// Reads one console line. Lines without the `@@VMSA` prefix are not
    /// protocol records: they give `Ok(None)` and change nothing.
    pub fn parse_line(&mut self, line: &str) -> (r: Result<Option<Event>, String>)
        ensures
            final(self)@ == parse_step(old(self)@, line@).0,
            outcome_is(r, parse_step(old(self)@, line@).1),
    {
        let chars = chars_of(line);
        let prefix = chars_of("@@VMSA");
        if !starts_with(chars.as_slice(), prefix.as_slice()) {
            return Ok(None);
        }
        if line.as_bytes().len() > PROTOCOL_LINE_LIMIT {
            return Err(String::from_str("protocol line exceeds 512-byte limit"));
        }
        let plen = prefix.len();
        let ghost payload = line@.skip(result_prefix().len() as int);
        assert(prefix@ == result_prefix());
        assert(encode_utf8(line@).len() <= PROTOCOL_LINE_LIMIT);
        assert(payload.len() == chars@.len() - plen);
        assert(chars@.len() > plen ==> payload[0] == chars@[plen as int]);
        if chars.len() == plen || chars[plen] != ' ' {
            return Err(String::from_str("missing space after protocol prefix"));
        }
        let rest = sub_chars(chars.as_slice(), plen + 1, chars.len());
        assert(rest@ =~= line@.skip(result_prefix().len() as int).drop_first());
        let words = split_words(rest.as_slice());
        if words.len() == 0 {
            return Err(String::from_str("empty protocol record"));
        }
        let kind = &words[0];
        assert(views(words@)[0] == kind@);
        if self.ended {
            return Err(join2("protocol record after END: ", kind.as_slice()));
        }
        let begin = chars_of("BEGIN");
        let is_begin = same_chars(kind.as_slice(), begin.as_slice());
        if !self.began && !is_begin {
            return Err(join2("protocol record before BEGIN: ", kind.as_slice()));
        }
        if is_begin {
            return self.parse_begin(&words);
        }
        if same_chars(kind.as_slice(), chars_of("CAP").as_slice()) {
            return self.parse_capability(&words);
        }
        if same_chars(kind.as_slice(), chars_of("RUN").as_slice()) {
            return self.parse_run(&words);
        }
        if same_chars(kind.as_slice(), chars_of("PASS").as_slice()) {
            return self.parse_pass(&words);
        }
        if same_chars(kind.as_slice(), chars_of("FAIL").as_slice()) {
            return self.parse_fail(&words);
        }
        if same_chars(kind.as_slice(), chars_of("SKIP").as_slice()) {
            return self.parse_skip(&words);
        }
        if same_chars(kind.as_slice(), chars_of("END").as_slice()) {
            return self.parse_end(&words);
        }
        Err(join2("unknown protocol record: ", kind.as_slice()))
    }

    /// The counts of a complete stream: one that began, has no active test and ended.
    pub fn finish(&self) -> (r: Result<Counts, String>)
        ensures
            str_result_is(r, finish_spec(self@)),
    {
        if !self.began {
            return Err(String::from_str("missing BEGIN"));
        }
        if self.active.is_some() {
            return Err(String::from_str("result stream ended with an active test"));
        }
        if !self.ended {
            return Err(String::from_str("missing END"));
        }
        Ok(self.counts)
    }

    pub fn has_begun(&self) -> (r: bool)
        ensures
            r == self@.began,
    {
        self.began
    }

    pub fn has_ended(&self) -> (r: bool)
        ensures
            r == self@.ended,
    {
        self.ended
    }

    /// The target that `BEGIN` named, once it has.
    pub fn target(&self) -> (r: Option<&str>)
        ensures
            match self@.target {
                Some(t) => r is Some && r->Some_0@ == t,
                None => r is None,
            },
    {
        match &self.target {
            Some(t) => Some(t.as_str()),
            None => None,
        }
    }

    /// The test that has run and not yet completed.
    pub fn active_test(&self) -> (r: Option<&str>)
        ensures
            match self@.active {
                Some(t) => r is Some && r->Some_0@ == t,
                None => r is None,
            },
    {
        match &self.active {
            Some(t) => Some(t.as_str()),
            None => None,
        }
    }

    /// The counts of the records read so far.
    pub fn observed_counts(&self) -> (r: &Counts)
        ensures
            *r == self@.counts,
    {
        &self.counts
    }
}

impl Default for Parser {
    fn default() -> (r: Self)
        ensures
            r@ == initial_model(),
    {
        Parser::new()
    }
}


/// Reads `lines` in turn from state `p`, stopping at the first rejected one.
pub open spec fn read_all(p: ParserModel, lines: Seq<Seq<char>>) -> (ParserModel, Result<(), Seq<char>>)
    decreases lines.len(),
{
    if lines.len() == 0 {
        (p, Ok(()))
    } else {
        let (q, r) = parse_step(p, lines[0]);
        match r {
            Err(m) => (q, Err(m)),
            Ok(_) => read_all(q, lines.drop_first()),
        }
    }
}

/// Whether reading `lines` in turn from state `p` rejects one of them, and the
/// state when reading stopped (at the first rejected line).
pub open spec fn rejects_any(p: ParserModel, lines: Seq<Seq<char>>) -> (ParserModel, bool)
    decreases lines.len(),
{
    if lines.len() == 0 {
        (p, false)
    } else {
        let (q, r) = parse_step(p, lines[0]);
        if r is Err { (q, true) } else { rejects_any(q, lines.drop_first()) }
    }
}

pub open spec fn self_check_stream() -> Seq<Seq<char>> {
    seq![
        "@@VMSA BEGIN protocol=1 target=self-check"@,
        "@@VMSA CAP rme=1"@,
        "@@VMSA RUN smoke.pass"@,
        "@@VMSA PASS smoke.pass"@,
        "@@VMSA SKIP smoke.skip reason=unsupported"@,
        "@@VMSA END passed=1 failed=0 skipped=1"@,
    ]
}

pub open spec fn malformed_streams() -> Seq<Seq<Seq<char>>> {
    seq![
        seq!["@@VMSA PASS smoke.pass"@],
        seq!["@@VMSA BEGIN protocol=1 target=x"@, "@@VMSA BEGIN protocol=1 target=x"@],
        seq!["@@VMSA BEGIN protocol=1 target=x"@, "@@VMSA UNKNOWN value=1"@],
        seq!["@@VMSA BEGIN protocol=1 target=x"@, "@@VMSA PASS smoke.pass"@],
        seq![
            "@@VMSA BEGIN protocol=1 target=x"@,
            "@@VMSA RUN smoke.pass"@,
            "@@VMSA PASS smoke.pass"@,
            "@@VMSA END passed=0 failed=0 skipped=0"@,
        ],
        seq!["@@VMSA BEGIN protocol=2 target=x"@],
        seq![
            "@@VMSA BEGIN protocol=1 target=x"@,
            "@@VMSA END passed=0 failed=0 skipped=0"@,
            "@@VMSA RUN smoke.late"@,
        ],
    ]
}

/// The first malformed stream among the first `n` that the parser accepts whole.
pub open spec fn accepted_malformed(n: nat) -> bool
    decreases n,
{
    if n == 0 {
        false
    } else {
        accepted_malformed((n - 1) as nat) || {
            let (q, rejected) = rejects_any(initial_model(), malformed_streams()[n - 1]);
            !rejected && finish_spec(q) is Ok
        }
    }
}

proof fn lemma_accepted_malformed_persists(n: nat, m: nat)
    requires
        n <= m,
        accepted_malformed(n),
    ensures
        accepted_malformed(m),
    decreases m - n,
{
    if m > n {
        lemma_accepted_malformed_persists(n, (m - 1) as nat);
    }
}

/// A `RUN` record whose name is `n` copies of `x`.
pub open spec fn run_of_xs(n: nat) -> Seq<char> {
    "@@VMSA RUN "@ + Seq::new(n, |i: int| 'x')
}

/// What the parser self-check finds: the well-formed stream must be accepted
/// and complete, every malformed stream rejected, and an oversized line and an
/// oversized name rejected.
pub open spec fn self_check_spec() -> Result<(), Seq<char>> {
    let (p, r) = read_all(initial_model(), self_check_stream());
    let begin = "@@VMSA BEGIN protocol=1 target=x"@;
    if r is Err {
        r
    } else if finish_spec(p) is Err {
        Err(finish_spec(p)->Err_0)
    } else if accepted_malformed(malformed_streams().len()) {
        Err("strict parser accepted a malformed self-check stream"@)
    } else if parse_step(initial_model(), begin).1 is Err {
        Err(parse_step(initial_model(), begin).1->Err_0)
    } else if parse_step(parse_step(initial_model(), begin).0, run_of_xs(PROTOCOL_LINE_LIMIT as nat)).1 is Ok {
        Err("strict parser accepted an oversized protocol line"@)
    } else if parse_step(parse_step(initial_model(), begin).0, run_of_xs((TEST_NAME_LIMIT + 1) as nat)).1 is Ok {
        Err("strict parser accepted an oversized test name"@)
    } else {
        Ok(())
    }
}

fn run_with_xs(n: usize) -> (r: String)
    ensures
        r@ == run_of_xs(n as nat),
{
    let mut r = String::from_str("@@VMSA RUN ");
    r.append(crate::text::repeat_char('x', n).as_str());
    r
}

/// Whether parsing `lines` in turn rejects one of them.
fn rejects_any_line(parser: &mut Parser, lines: &Vec<&str>) -> (r: bool)
    ensures
        (final(parser)@, r) == rejects_any(old(parser)@, lines@.map_values(|l: &str| l@)),
{
    let ghost all = lines@.map_values(|l: &str| l@);
    let mut i: usize = 0;
    assert(all.skip(0) =~= all);
    while i < lines.len()
        invariant
            i <= lines@.len(),
            all == lines@.map_values(|l: &str| l@),
            rejects_any(old(parser)@, all) == rejects_any(parser@, all.skip(i as int)),
        decreases lines@.len() - i,
    {
        assert(all.skip(i as int)[0] == lines@[i as int]@);
        assert(all.skip(i as int).drop_first() =~= all.skip(i + 1));
        if parser.parse_line(lines[i]).is_err() {
            return true;
        }
        i = i + 1;
    }
    false
}

/// Runs the parser on a well-formed stream, on malformed streams and on
/// oversized records, and reports the first check whose outcome is wrong.
pub fn validate_parser() -> (r: Result<(), String>)
    ensures
        match self_check_spec() {
            Ok(_) => r is Ok,
            Err(m) => r is Err && r->Err_0@ == m,
        },
{
    let valid_lines = vec![
        "@@VMSA BEGIN protocol=1 target=self-check",
        "@@VMSA CAP rme=1",
        "@@VMSA RUN smoke.pass",
        "@@VMSA PASS smoke.pass",
        "@@VMSA SKIP smoke.skip reason=unsupported",
        "@@VMSA END passed=1 failed=0 skipped=1",
    ];
    let ghost stream = valid_lines@.map_values(|l: &str| l@);
    assert(stream =~= self_check_stream());
    let mut valid = Parser::new();
    let mut i: usize = 0;
    assert(stream.skip(0) =~= stream);
    while i < valid_lines.len()
        invariant
            i <= valid_lines@.len(),
            stream == valid_lines@.map_values(|l: &str| l@),
            stream == self_check_stream(),
            read_all(initial_model(), stream) == read_all(valid@, stream.skip(i as int)),
        decreases valid_lines@.len() - i,
    {
        assert(stream.skip(i as int)[0] == valid_lines@[i as int]@);
        assert(stream.skip(i as int).drop_first() =~= stream.skip(i + 1));
        valid.parse_line(valid_lines[i])?;
        i = i + 1;
    }
    valid.finish()?;
    let streams: Vec<Vec<&str>> = vec![
        vec!["@@VMSA PASS smoke.pass"],
        vec!["@@VMSA BEGIN protocol=1 target=x", "@@VMSA BEGIN protocol=1 target=x"],
        vec!["@@VMSA BEGIN protocol=1 target=x", "@@VMSA UNKNOWN value=1"],
        vec!["@@VMSA BEGIN protocol=1 target=x", "@@VMSA PASS smoke.pass"],
        vec![
            "@@VMSA BEGIN protocol=1 target=x",
            "@@VMSA RUN smoke.pass",
            "@@VMSA PASS smoke.pass",
            "@@VMSA END passed=0 failed=0 skipped=0",
        ],
        vec!["@@VMSA BEGIN protocol=2 target=x"],
        vec![
            "@@VMSA BEGIN protocol=1 target=x",
            "@@VMSA END passed=0 failed=0 skipped=0",
            "@@VMSA RUN smoke.late",
        ],
    ];
    let ghost ms = streams@.map_values(|v: Vec<&str>| v@.map_values(|l: &str| l@));
    assert(ms =~= malformed_streams()) by {
        assert(ms[0] =~= malformed_streams()[0]);
        assert(ms[1] =~= malformed_streams()[1]);
        assert(ms[2] =~= malformed_streams()[2]);
        assert(ms[3] =~= malformed_streams()[3]);
        assert(ms[4] =~= malformed_streams()[4]);
        assert(ms[5] =~= malformed_streams()[5]);
        assert(ms[6] =~= malformed_streams()[6]);
    }
    let mut k: usize = 0;
    while k < streams.len()
        invariant
            k <= streams@.len(),
            ms == streams@.map_values(|v: Vec<&str>| v@.map_values(|l: &str| l@)),
            ms == malformed_streams(),
            !accepted_malformed(k as nat),
            read_all(initial_model(), self_check_stream()).1 is Ok,
            finish_spec(read_all(initial_model(), self_check_stream()).0) is Ok,
        decreases streams@.len() - k,
    {
        let mut parser = Parser::new();
        assert(ms[k as int] == streams@[k as int]@.map_values(|l: &str| l@));
        let rejected = rejects_any_line(&mut parser, &streams[k]);
        if !rejected && parser.finish().is_ok() {
            proof { lemma_accepted_malformed_persists((k + 1) as nat, ms.len()); }
            return Err(String::from_str("strict parser accepted a malformed self-check stream"));
        }
        k = k + 1;
    }
    let oversized = run_with_xs(PROTOCOL_LINE_LIMIT);
    let mut parser = Parser::new();
    parser.parse_line("@@VMSA BEGIN protocol=1 target=x")?;
    if parser.parse_line(oversized.as_str()).is_ok() {
        return Err(String::from_str("strict parser accepted an oversized protocol line"));
    }
    let long_name = run_with_xs(TEST_NAME_LIMIT + 1);
    let mut parser = Parser::new();
    parser.parse_line("@@VMSA BEGIN protocol=1 target=x")?;
    if parser.parse_line(long_name.as_str()).is_ok() {
        return Err(String::from_str("strict parser accepted an oversized test name"));
    }
    Ok(())
}

/// What every state that a parser reaches from [`initial_model`] satisfies.
pub open spec fn consistent(p: ParserModel) -> bool {
    &&& p.completed.finite()
    &&& (p.ended ==> p.began && p.active is None)
    &&& (p.active matches Some(a) ==> p.began && !p.completed.contains(a) && 0 < a.len() && is_protocol_name(a))
    &&& (!p.began ==> p.completed.is_empty() && p.counts == zero_counts() && p.active is None)
    &&& (p.began <==> p.target is Some)
}

/// Every completed test is counted once: passes, failures and skips add up to
/// the number of completed tests.
pub open spec fn tallied(p: ParserModel) -> bool {
    p.counts.passed + p.counts.failed + p.counts.skipped == p.completed.len()
}

/// The errors raised when a counter is already at its largest value.
pub open spec fn is_counter_overflow(m: Seq<char>) -> bool {
    m == "pass counter overflow"@ || m == "fail counter overflow"@ || m == "skip counter overflow"@
}

/// The state before any line is consistent and tallied.
pub proof fn lemma_initial_consistent()
    ensures
        consistent(initial_model()),
        tallied(initial_model()),
{
}

/// A line without the `@@VMSA` prefix is no protocol record: it is accepted,
/// yields no event and leaves the parser as it was.
pub proof fn lemma_non_protocol_line_ignored(p: ParserModel, line: Seq<char>)
    requires
        !result_prefix().is_prefix_of(line),
    ensures
        parse_step(p, line) == (p, Ok::<Option<EventModel>, Seq<char>>(None)),
{
}

/// A rejected record changes nothing, unless it was rejected because a counter
/// would overflow (the test is then recorded as completed but not counted).
pub proof fn lemma_rejected_record_changes_nothing(p: ParserModel, line: Seq<char>)
    requires
        parse_step(p, line).1 is Err,
        !is_counter_overflow(parse_step(p, line).1->Err_0),
    ensures
        parse_step(p, line).0 == p,
{
    reveal_strlit("pass counter overflow");
    reveal_strlit("fail counter overflow");
    reveal_strlit("skip counter overflow");
}

/// After `END` every protocol record is rejected and nothing changes.
pub proof fn lemma_nothing_after_end(p: ParserModel, line: Seq<char>)
    requires
        p.ended,
        result_prefix().is_prefix_of(line),
    ensures
        parse_step(p, line).1 is Err,
        parse_step(p, line).0 == p,
{
}

/// An accepted `END` declares exactly the counts observed before it.
pub proof fn lemma_end_matches_observed(p: ParserModel, line: Seq<char>)
    requires
        parse_step(p, line).1 matches Ok(Some(EventModel::End(c))),
    ensures
        parse_step(p, line).1 == Ok::<Option<EventModel>, Seq<char>>(Some(EventModel::End(p.counts))),
        parse_step(p, line).0.ended,
{
}

/// Reading a line never forgets: a begun or ended stream stays so, completed
/// tests stay completed and no counter goes down.
pub proof fn lemma_parse_step_monotone(p: ParserModel, line: Seq<char>)
    ensures
        p.began ==> parse_step(p, line).0.began,
        p.ended ==> parse_step(p, line).0.ended,
        p.completed.subset_of(parse_step(p, line).0.completed),
        p.counts.passed <= parse_step(p, line).0.counts.passed,
        p.counts.failed <= parse_step(p, line).0.counts.failed,
        p.counts.skipped <= parse_step(p, line).0.counts.skipped,
{
}

/// Every line keeps the parser consistent: a stream ends only after it began and
/// with no test running, and the running test has not completed before.
pub proof fn lemma_parse_step_consistent(p: ParserModel, line: Seq<char>)
    requires
        consistent(p),
    ensures
        consistent(parse_step(p, line).0),
{
    reveal_strlit("BEGIN");
}

/// Unless a counter overflows, every line keeps the counts equal to the number of
/// completed tests.
pub proof fn lemma_parse_step_tallied(p: ParserModel, line: Seq<char>)
    requires
        consistent(p),
        tallied(p),
        !(parse_step(p, line).1 is Err && is_counter_overflow(parse_step(p, line).1->Err_0)),
    ensures
        tallied(parse_step(p, line).0),
{
    reveal_strlit("pass counter overflow");
    reveal_strlit("fail counter overflow");
    reveal_strlit("skip counter overflow");
}

/// Whatever stream the parser reads, it stays consistent; and when the stream
/// is accepted whole, every completed test is counted exactly once.
pub proof fn lemma_stream_consistent_and_tallied(p: ParserModel, lines: Seq<Seq<char>>)
    requires
        consistent(p),
        tallied(p),
    ensures
        consistent(read_all(p, lines).0),
        read_all(p, lines).1 is Ok ==> tallied(read_all(p, lines).0),
    decreases lines.len(),
{
    if lines.len() > 0 {
        let (q, r) = parse_step(p, lines[0]);
        lemma_parse_step_consistent(p, lines[0]);
        if r is Ok {
            lemma_parse_step_tallied(p, lines[0]);
            lemma_stream_consistent_and_tallied(q, lines.drop_first());
        }
    }
}

/// The name of a completion event: a pass, a failure or a skip.
pub open spec fn completion_of(r: Result<Option<EventModel>, Seq<char>>) -> Option<Seq<char>> {
    match r {
        Ok(Some(EventModel::Pass { name })) => Some(name),
        Ok(Some(EventModel::Fail { name, .. })) => Some(name),
        Ok(Some(EventModel::Skip { name, .. })) => Some(name),
        _ => None,
    }
}

/// A counter would have overflowed.
pub open spec fn overflowed(r: Result<Option<EventModel>, Seq<char>>) -> bool {
    r is Err && is_counter_overflow(r->Err_0)
}

/// What one line does to each part of a consistent parser state.
pub proof fn lemma_step_effects(p: ParserModel, line: Seq<char>)
    requires
        consistent(p),
    ensures
        ({
            let (q, r) = parse_step(p, line);
            &&& !p.began ==> (r matches Ok(Some(e)) ==> e is Begin)
            &&& r matches Ok(Some(EventModel::Begin { target })) ==> {
                &&& !p.began && q.began && q.target == Some(target)
                &&& 0 < target.len() && is_protocol_name(target)
            }
            &&& !(r matches Ok(Some(EventModel::Begin { .. }))) ==> q.began == p.began && q.target == p.target
            &&& r matches Ok(Some(EventModel::End(_))) ==> q.ended
            &&& !(r matches Ok(Some(EventModel::End(_)))) ==> q.ended == p.ended
            &&& r matches Ok(Some(EventModel::Run { name })) ==> p.active is None && q.active == Some(name)
            &&& r matches Ok(Some(EventModel::Pass { name })) ==> p.active == Some(name) && q.active is None
            &&& r matches Ok(Some(EventModel::Fail { name, .. })) ==> p.active == Some(name) && q.active is None
            &&& completion_of(r) matches Some(name) ==> !p.completed.contains(name) && q.completed
                == p.completed.insert(name)
            &&& !overflowed(r) && completion_of(r) is None ==> q.completed == p.completed
            &&& !overflowed(r) && !(r matches Ok(Some(EventModel::Run { .. }))) && !(r matches Ok(Some(EventModel::Pass { .. })))
                && !(r matches Ok(Some(EventModel::Fail { .. }))) ==> q.active == p.active
            &&& q.counts == (match r {
                Ok(Some(EventModel::Pass { .. })) => Counts { passed: (p.counts.passed + 1) as u32, ..p.counts },
                Ok(Some(EventModel::Fail { .. })) => Counts { failed: (p.counts.failed + 1) as u32, ..p.counts },
                Ok(Some(EventModel::Skip { .. })) => Counts { skipped: (p.counts.skipped + 1) as u32, ..p.counts },
                _ => p.counts,
            })
        }),
{
    reveal_strlit("pass counter overflow");
    reveal_strlit("fail counter overflow");
    reveal_strlit("skip counter overflow");
    reveal_strlit("BEGIN");
}

/// The parser state after reading `lines` in turn, whatever each line gave.
pub open spec fn state_after(lines: Seq<Seq<char>>) -> ParserModel
    decreases lines.len(),
{
    if lines.len() == 0 {
        initial_model()
    } else {
        parse_step(state_after(lines.drop_last()), lines.last()).0
    }
}

/// What reading line `i` of `lines` gave, after the lines before it.
#[verifier::opaque]
pub open spec fn result_at(lines: Seq<Seq<char>>, i: int) -> Result<Option<EventModel>, Seq<char>> {
    parse_step(state_after(lines.take(i)), lines[i]).1
}

/// What reading the last of `lines` gave.
pub open spec fn last_result(lines: Seq<Seq<char>>) -> Result<Option<EventModel>, Seq<char>> {
    result_at(lines, lines.len() - 1)
}

/// No line of `lines` was rejected because a counter would overflow.
pub open spec fn no_overflow(lines: Seq<Seq<char>>) -> bool {
    forall|i: int| 0 <= i < lines.len() ==> !overflowed(#[trigger] result_at(lines, i))
}

/// How many of `lines` gave a `BEGIN` event.
pub open spec fn begin_events(lines: Seq<Seq<char>>) -> nat
    decreases lines.len(),
{
    if lines.len() == 0 {
        0
    } else {
        begin_events(lines.drop_last()) + if last_result(lines) matches Ok(Some(EventModel::Begin { .. })) { 1nat } else { 0nat }
    }
}

/// How many of `lines` gave an `END` event.
pub open spec fn end_events(lines: Seq<Seq<char>>) -> nat
    decreases lines.len(),
{
    if lines.len() == 0 {
        0
    } else {
        end_events(lines.drop_last()) + if last_result(lines) matches Ok(Some(EventModel::End(_))) { 1nat } else { 0nat }
    }
}

/// How many of `lines` gave a `PASS` event.
pub open spec fn pass_events(lines: Seq<Seq<char>>) -> nat
    decreases lines.len(),
{
    if lines.len() == 0 {
        0
    } else {
        pass_events(lines.drop_last()) + if last_result(lines) matches Ok(Some(EventModel::Pass { .. })) { 1nat } else { 0nat }
    }
}

/// How many of `lines` gave a `FAIL` event.
pub open spec fn fail_events(lines: Seq<Seq<char>>) -> nat
    decreases lines.len(),
{
    if lines.len() == 0 {
        0
    } else {
        fail_events(lines.drop_last()) + if last_result(lines) matches Ok(Some(EventModel::Fail { .. })) { 1nat } else { 0nat }
    }
}

/// How many of `lines` gave a `SKIP` event.
pub open spec fn skip_events(lines: Seq<Seq<char>>) -> nat
    decreases lines.len(),
{
    if lines.len() == 0 {
        0
    } else {
        skip_events(lines.drop_last()) + if last_result(lines) matches Ok(Some(EventModel::Skip { .. })) { 1nat } else { 0nat }
    }
}

/// The target of the `BEGIN` event that `lines` gave, if any.
pub open spec fn begun_target(lines: Seq<Seq<char>>) -> Option<Seq<char>>
    decreases lines.len(),
{
    if lines.len() == 0 {
        None
    } else {
        match last_result(lines) {
            Ok(Some(EventModel::Begin { target })) => Some(target),
            _ => begun_target(lines.drop_last()),
        }
    }
}

/// The test of the last `RUN` event that `lines` gave, unless a `PASS` or
/// `FAIL` event came after it.
pub open spec fn open_run(lines: Seq<Seq<char>>) -> Option<Seq<char>>
    decreases lines.len(),
{
    if lines.len() == 0 {
        None
    } else {
        match last_result(lines) {
            Ok(Some(EventModel::Run { name })) => Some(name),
            Ok(Some(EventModel::Pass { .. })) => None,
            Ok(Some(EventModel::Fail { .. })) => None,
            _ => open_run(lines.drop_last()),
        }
    }
}

/// The names of the completion events that `lines` gave.
pub open spec fn completed_names(lines: Seq<Seq<char>>) -> Set<Seq<char>>
    decreases lines.len(),
{
    if lines.len() == 0 {
        Set::empty()
    } else {
        match completion_of(last_result(lines)) {
            Some(name) => completed_names(lines.drop_last()).insert(name),
            None => completed_names(lines.drop_last()),
        }
    }
}

/// Reading one more line leaves what the earlier lines gave as it was.
proof fn lemma_results_of_prefix(lines: Seq<Seq<char>>)
    requires
        lines.len() > 0,
    ensures
        forall|i: int| 0 <= i < lines.len() - 1 ==> #[trigger] result_at(lines, i) == result_at(lines.drop_last(), i),
        last_result(lines) == parse_step(state_after(lines.drop_last()), lines.last()).1,
        state_after(lines) == parse_step(state_after(lines.drop_last()), lines.last()).0,
{
    reveal(result_at);
    assert(lines.take(lines.len() - 1) =~= lines.drop_last());
    assert forall|i: int| 0 <= i < lines.len() - 1 implies #[trigger] result_at(lines, i) == result_at(lines.drop_last(), i) by {
        assert(lines.take(i) =~= lines.drop_last().take(i));
    }
}

/// Whatever lines the parser reads: it has begun exactly when one line gave a
/// `BEGIN` event, and no two did; its target is that event's target, a
/// protocol name of at least one character; it has ended exactly when a line
/// gave an `END` event; and its state stays consistent.
pub proof fn lemma_history_of_begin_and_end(lines: Seq<Seq<char>>)
    ensures
        consistent(state_after(lines)),
        state_after(lines).began == (begin_events(lines) > 0),
        begin_events(lines) <= 1,
        state_after(lines).target == begun_target(lines),
        begun_target(lines) matches Some(t) ==> 0 < t.len() && is_protocol_name(t),
        state_after(lines).ended == (end_events(lines) > 0),
    decreases lines.len(),
{
    if lines.len() > 0 {
        let init = lines.drop_last();
        lemma_history_of_begin_and_end(init);
        lemma_results_of_prefix(lines);
        lemma_step_effects(state_after(init), lines.last());
        lemma_parse_step_consistent(state_after(init), lines.last());
        lemma_parse_step_monotone(state_after(init), lines.last());
    }
}

/// Whatever lines the parser reads, as long as no counter would overflow: its
/// running test is the one of the last `RUN` event without a later `PASS` or
/// `FAIL`; each counter is the number of events of its kind; the completed
/// tests are the names of the completion events, and no name completed twice.
pub proof fn lemma_history_of_tests(lines: Seq<Seq<char>>)
    requires
        no_overflow(lines),
    ensures
        state_after(lines).active == open_run(lines),
        state_after(lines).completed == completed_names(lines),
        state_after(lines).counts.passed == pass_events(lines),
        state_after(lines).counts.failed == fail_events(lines),
        state_after(lines).counts.skipped == skip_events(lines),
        forall|i: int| 0 <= i < lines.len() && (#[trigger] completion_of(result_at(lines, i))) is Some
            ==> completed_names(lines).contains(completion_of(result_at(lines, i))->Some_0),
        forall|i: int, j: int|
            0 <= i < j < lines.len() && (#[trigger] completion_of(result_at(lines, i))) is Some
                && (#[trigger] completion_of(result_at(lines, j))) is Some ==> completion_of(result_at(lines, i))
                != completion_of(result_at(lines, j)),
    decreases lines.len(),
{
    if lines.len() > 0 {
        let init = lines.drop_last();
        lemma_results_of_prefix(lines);
        assert(no_overflow(init)) by {
            assert forall|i: int| 0 <= i < init.len() implies !overflowed(#[trigger] result_at(init, i)) by {
                assert(result_at(lines, i) == result_at(init, i));
            }
        }
        assert(!overflowed(result_at(lines, lines.len() - 1)));
        lemma_history_of_tests(init);
        lemma_history_of_begin_and_end(init);
        lemma_step_effects(state_after(init), lines.last());
        let n = lines.len() - 1;
        assert forall|i: int| 0 <= i < lines.len() && (#[trigger] completion_of(result_at(lines, i))) is Some
            implies completed_names(lines).contains(completion_of(result_at(lines, i))->Some_0) by {
            if i < n {
                assert(result_at(lines, i) == result_at(init, i));
            }
        }
        assert forall|i: int, j: int|
            0 <= i < j < lines.len() && (#[trigger] completion_of(result_at(lines, i))) is Some
                && (#[trigger] completion_of(result_at(lines, j))) is Some implies completion_of(result_at(lines, i))
                != completion_of(result_at(lines, j)) by {
            assert(result_at(lines, i) == result_at(init, i));
            if j < n {
                assert(result_at(lines, j) == result_at(init, j));
            } else {
                assert(completed_names(init).contains(completion_of(result_at(init, i))->Some_0));
            }
        }
    }
}

/// A failure record with `expected=` and `actual=` fields after its reason,
/// as the host writes for a test whose watchdog expired.
pub open spec fn failure_line(name: Seq<char>, reason: Seq<char>, expected: nat, actual: nat) -> Seq<char> {
    "@@VMSA FAIL "@ + name + " reason="@ + reason + " expected="@ + decimal(expected) + " actual="@ + decimal(actual)
}

/// A failure record for the running test, with a reason and further
/// `expected=` and `actual=` fields, is accepted: it fails that test and
/// counts the failure.
pub proof fn lemma_failure_with_fields_accepted(p: ParserModel, name: Seq<char>, reason: Seq<char>, expected: nat, actual: nat)
    requires
        consistent(p),
        p.active == Some(name),
        p.counts.failed < u32::MAX,
        is_word(reason),
        reason.len() <= 200,
        forall|i: int| 0 <= i < reason.len() ==> (#[trigger] reason[i] as u32) < 128,
        expected < pow10(20),
        actual < pow10(20),
    ensures
        parse_step(p, failure_line(name, reason, expected, actual)) == (
            ParserModel {
                active: None,
                completed: p.completed.insert(name),
                counts: Counts { failed: (p.counts.failed + 1) as u32, ..p.counts },
                ..p
            },
            Ok::<Option<EventModel>, Seq<char>>(Some(EventModel::Fail { name, reason })),
        ),
{
    reveal_strlit("@@VMSA FAIL ");
    reveal_strlit(" reason=");
    reveal_strlit(" expected=");
    reveal_strlit(" actual=");
    reveal_strlit("@@VMSA");
    reveal_strlit(" ");
    reveal_strlit("FAIL");
    reveal_strlit("reason=");
    reveal_strlit("expected=");
    reveal_strlit("actual=");
    reveal_strlit("reason");
    reveal_strlit("BEGIN");
    reveal_strlit("CAP");
    reveal_strlit("RUN");
    reveal_strlit("PASS");
    let d1 = decimal(expected);
    let d2 = decimal(actual);
    lemma_decimal_digits(expected);
    lemma_decimal_digits(actual);
    let line = failure_line(name, reason, expected, actual);
    let w0 = "FAIL"@;
    let w2 = "reason="@ + reason;
    let w3 = "expected="@ + d1;
    let w4 = "actual="@ + d2;
    let body = w0 + (" "@ + (name + (" "@ + (w2 + (" "@ + (w3 + (" "@ + w4)))))));
    assert(line =~= "@@VMSA"@ + (" "@ + body));
    // The name, the reason and the decimals are words.
    assert(forall|i: int| 0 <= i < name.len() ==> is_name_char(#[trigger] name[i]));
    assert(is_word(name));
    assert(is_word(w0));
    assert(is_word(w2));
    assert(is_word(w3));
    assert(is_word(w4));
    lemma_words_last(w4);
    lemma_words_space(w3, w4);
    lemma_words_space(w2, w3 + (" "@ + w4));
    lemma_words_space(name, w2 + (" "@ + (w3 + (" "@ + w4))));
    lemma_words_space(w0, name + (" "@ + (w2 + (" "@ + (w3 + (" "@ + w4))))));
    let words = ascii_words(body);
    assert(words =~= seq![w0, name, w2, w3, w4]);
    // The line is ASCII and short.
    assert forall|i: int| 0 <= i < line.len() implies (#[trigger] line[i] as u32) < 128 by {
        assert(is_name_char(name[i - 12]) || i < 12 || i >= 12 + name.len());
    }
    lemma_ascii_utf8_len(line);
    assert(line.len() <= 512);
    assert(result_prefix().is_prefix_of(line)) by {
        assert(line.subrange(0, 6) =~= "@@VMSA"@);
    }
    let payload = line.skip(result_prefix().len() as int);
    assert(payload =~= " "@ + body);
    assert(payload.drop_first() =~= body);
    // The fields split where expected.
    lemma_find_char_at(name, '=', name.len() as int);
    lemma_find_char_at(w2, '=', 6);
    assert(w2.take(6) =~= "reason"@);
    assert(w2.skip(7) =~= reason);
    lemma_find_char_at(w3, '=', 8);
    lemma_find_char_at(w4, '=', 6);
    assert(fields_from_spec(words, 3) is Ok) by {
        reveal_with_fuel(fields_from_spec, 4);
    }
}

/// A protocol line longer than 512 bytes is rejected and changes nothing,
/// whatever the parser has read before.
pub proof fn lemma_oversized_line_rejected(p: ParserModel, line: Seq<char>)
    requires
        result_prefix().is_prefix_of(line),
        encode_utf8(line).len() > PROTOCOL_LINE_LIMIT,
    ensures
        parse_step(p, line) == (p, Err::<Option<EventModel>, Seq<char>>("protocol line exceeds 512-byte limit"@)),
{
}

proof fn lemma_record_line(line: Seq<char>, ws: Seq<Seq<char>>)
    requires
        line == "@@VMSA "@ + joined(ws),
        ws.len() > 0,
        forall|k: int| 0 <= k < ws.len() ==> is_word(#[trigger] ws[k]),
        forall|i: int| 0 <= i < line.len() ==> (#[trigger] line[i] as u32) < 128,
        line.len() <= 512,
    ensures
        result_prefix().is_prefix_of(line),
        encode_utf8(line).len() <= PROTOCOL_LINE_LIMIT,
        line.skip(6).len() > 0 && line.skip(6)[0] == ' ',
        ascii_words(line.skip(6).drop_first()) == ws,
{
    reveal_strlit("@@VMSA ");
    reveal_strlit("@@VMSA");
    lemma_ascii_utf8_len(line);
    assert(line.subrange(0, 6) =~= "@@VMSA"@);
    assert(line.skip(6).drop_first() =~= joined(ws));
    lemma_joined_words(ws);
}

/// Reading a well-formed record line comes down to reading its words.
proof fn lemma_parse_record(p: ParserModel, line: Seq<char>, ws: Seq<Seq<char>>)
    requires
        line == "@@VMSA "@ + joined(ws),
        ws.len() > 0,
        forall|k: int| 0 <= k < ws.len() ==> is_word(#[trigger] ws[k]),
        forall|i: int| 0 <= i < line.len() ==> (#[trigger] line[i] as u32) < 128,
        line.len() <= 512,
    ensures
        parse_step(p, line) == (if p.ended {
            (p, Err::<Option<EventModel>, Seq<char>>("protocol record after END: "@ + ws[0]))
        } else if !p.began && ws[0] != "BEGIN"@ {
            (p, Err::<Option<EventModel>, Seq<char>>("protocol record before BEGIN: "@ + ws[0]))
        } else {
            record_step(p, ws)
        }),
{
    reveal_strlit("@@VMSA");
    lemma_record_line(line, ws);
    assert(result_prefix().len() == 6);
}

/// A decimal digit reads as its value.
proof fn lemma_digit_value(d: char)
    requires
        '0' <= d <= '9',
    ensures
        parse_unsigned(seq![d], u32::MAX as nat) == Some((d as int - '0' as int) as nat),
        parse_unsigned(seq![d], u64::MAX as nat) == Some((d as int - '0' as int) as nat),
{
    assert(seq![d].drop_last() =~= Seq::<char>::empty());
    assert(digits_value(seq![d]) == (d as int - '0' as int) as nat) by {
        reveal_with_fuel(digits_value, 2);
    }
}

/// `key=value`, with a key free of `=`, splits into its key and value.
proof fn lemma_split_key_value(key: Seq<char>, value: Seq<char>)
    requires
        forall|i: int| 0 <= i < key.len() ==> key[i] != '=',
    ensures
        split_field(key + "="@ + value) == Some((key, value)),
{
    reveal_strlit("=");
    let w = key + "="@ + value;
    lemma_find_char_at(w, '=', key.len() as int);
    assert(w.take(key.len() as int) =~= key);
    assert(w.skip(key.len() as int + 1) =~= value);
}

pub open spec fn begin_line(version: char, target: Seq<char>) -> Seq<char> {
    "@@VMSA BEGIN protocol="@ + seq![version] + " target="@ + target
}

proof fn lemma_begin_line(p: ParserModel, version: char, target: Seq<char>)
    requires
        !p.ended,
        '0' <= version <= '9',
        0 < target.len() <= 100,
        is_protocol_name(target),
    ensures
        (parse_step(p, begin_line(version, target)).1 is Ok) == (!p.began && version == '1'),
        !p.began && version == '1' ==> parse_step(p, begin_line(version, target)).0 == (ParserModel {
            began: true,
            target: Some(target),
            ..p
        }),
{
    reveal_strlit("@@VMSA BEGIN protocol=");
    reveal_strlit(" target=");
    reveal_strlit("@@VMSA ");
    reveal_strlit(" ");
    reveal_strlit("BEGIN");
    reveal_strlit("protocol");
    reveal_strlit("target");
    reveal_strlit("=");
    let w1 = "protocol"@ + "="@ + seq![version];
    let w2 = "target"@ + "="@ + target;
    let ws = seq!["BEGIN"@, w1, w2];
    let line = begin_line(version, target);
    assert(line =~= "@@VMSA "@ + joined(ws)) by {
        reveal_with_fuel(joined, 3);
    }
    assert(forall|i: int| 0 <= i < target.len() ==> is_name_char(#[trigger] target[i]));
    assert(is_word(ws[0]) && is_word(ws[1]) && is_word(ws[2]));
    assert forall|i: int| 0 <= i < line.len() implies (#[trigger] line[i] as u32) < 128 by {
        if 31 <= i {
            assert(is_name_char(target[i - 31]));
        }
    }
    lemma_parse_record(p, line, ws);
    lemma_split_key_value("protocol"@, seq![version]);
    lemma_split_key_value("target"@, target);
    lemma_digit_value(version);
}

pub open spec fn name_line(kind: Seq<char>, name: Seq<char>) -> Seq<char> {
    "@@VMSA "@ + kind + " "@ + name
}

proof fn lemma_name_line(p: ParserModel, kind: Seq<char>, name: Seq<char>)
    requires
        p.began,
        !p.ended,
        kind == "RUN"@ || kind == "PASS"@,
        0 < name.len() <= 200,
        forall|i: int| 0 <= i < name.len() ==> name[i] == 'x' || is_name_char(name[i]),
    ensures
        kind == "RUN"@ ==> parse_step(p, name_line(kind, name)) == run_step(p, seq![kind, name]),
        kind == "PASS"@ ==> parse_step(p, name_line(kind, name)) == pass_step(p, seq![kind, name]),
        one_word_spec(seq![kind, name], 1, "RUN test name"@) == Ok::<Seq<char>, Seq<char>>(name),
        one_word_spec(seq![kind, name], 1, "test completion name"@) == Ok::<Seq<char>, Seq<char>>(name),
        no_more_spec(seq![kind, name], 2) is Ok,
{
    reveal_strlit("@@VMSA ");
    reveal_strlit(" ");
    reveal_strlit("RUN");
    reveal_strlit("PASS");
    reveal_strlit("BEGIN");
    reveal_strlit("CAP");
    assert("RUN"@[0] == 'R' && "CAP"@[0] == 'C' && "PASS"@[0] == 'P' && "BEGIN"@.len() == 5);
    let ws = seq![kind, name];
    let line = name_line(kind, name);
    assert(line =~= "@@VMSA "@ + joined(ws)) by {
        reveal_with_fuel(joined, 2);
    }
    assert(is_word(ws[0]) && is_word(ws[1]));
    assert forall|i: int| 0 <= i < line.len() implies (#[trigger] line[i] as u32) < 128 by {
        if 8 + kind.len() <= i {
            assert(name[i - 8 - kind.len()] == 'x' || is_name_char(name[i - 8 - kind.len()]));
        }
    }
    lemma_parse_record(p, line, ws);
    lemma_find_char_at(name, '=', name.len() as int);
}

pub open spec fn end_line(passed: char, failed: char, skipped: char) -> Seq<char> {
    "@@VMSA END passed="@ + seq![passed] + " failed="@ + seq![failed] + " skipped="@ + seq![skipped]
}

proof fn lemma_end_line(p: ParserModel, passed: char, failed: char, skipped: char)
    requires
        p.began,
        !p.ended,
        '0' <= passed <= '9',
        '0' <= failed <= '9',
        '0' <= skipped <= '9',
    ensures
        parse_step(p, end_line(passed, failed, skipped)) == end_step(
            p,
            seq!["END"@, "passed"@ + "="@ + seq![passed], "failed"@ + "="@ + seq![failed], "skipped"@ + "="@ + seq![skipped]],
        ),
        numeric_field_spec(
            seq!["END"@, "passed"@ + "="@ + seq![passed], "failed"@ + "="@ + seq![failed], "skipped"@ + "="@ + seq![skipped]],
            1,
            "passed"@,
        ) == Ok::<u32, Seq<char>>((passed as int - '0' as int) as u32),
        numeric_field_spec(
            seq!["END"@, "passed"@ + "="@ + seq![passed], "failed"@ + "="@ + seq![failed], "skipped"@ + "="@ + seq![skipped]],
            2,
            "failed"@,
        ) == Ok::<u32, Seq<char>>((failed as int - '0' as int) as u32),
        numeric_field_spec(
            seq!["END"@, "passed"@ + "="@ + seq![passed], "failed"@ + "="@ + seq![failed], "skipped"@ + "="@ + seq![skipped]],
            3,
            "skipped"@,
        ) == Ok::<u32, Seq<char>>((skipped as int - '0' as int) as u32),
{
    reveal_strlit("@@VMSA END passed=");
    reveal_strlit(" failed=");
    reveal_strlit(" skipped=");
    reveal_strlit("@@VMSA ");
    reveal_strlit(" ");
    reveal_strlit("END");
    reveal_strlit("passed");
    reveal_strlit("failed");
    reveal_strlit("skipped");
    reveal_strlit("=");
    reveal_strlit("BEGIN");
    reveal_strlit("CAP");
    reveal_strlit("RUN");
    reveal_strlit("PASS");
    reveal_strlit("FAIL");
    reveal_strlit("SKIP");
    assert("END"@[0] == 'E' && "CAP"@[0] == 'C' && "RUN"@[0] == 'R' && "BEGIN"@.len() == 5);
    assert("PASS"@.len() == 4 && "FAIL"@.len() == 4 && "SKIP"@.len() == 4);
    let ws = seq!["END"@, "passed"@ + "="@ + seq![passed], "failed"@ + "="@ + seq![failed], "skipped"@ + "="@ + seq![skipped]];
    let line = end_line(passed, failed, skipped);
    assert(line =~= "@@VMSA "@ + joined(ws)) by {
        reveal_with_fuel(joined, 4);
    }
    assert(is_word(ws[0]) && is_word(ws[1]) && is_word(ws[2]) && is_word(ws[3]));
    lemma_parse_record(p, line, ws);
    lemma_split_key_value("passed"@, seq![passed]);
    lemma_split_key_value("failed"@, seq![failed]);
    lemma_split_key_value("skipped"@, seq![skipped]);
    lemma_digit_value(passed);
    lemma_digit_value(failed);
    lemma_digit_value(skipped);
}

proof fn lemma_other_lines(p: ParserModel)
    requires
        p.began,
        !p.ended,
    ensures
        p.active is None ==> parse_step(p, "@@VMSA CAP rme=1"@) == (
            p,
            Ok::<Option<EventModel>, Seq<char>>(Some(EventModel::Capability { name: "rme"@, value: 1 })),
        ),
        p.active is None && !p.completed.contains("smoke.skip"@) && p.counts.skipped < u32::MAX ==> parse_step(
            p,
            "@@VMSA SKIP smoke.skip reason=unsupported"@,
        ) == (
            ParserModel {
                completed: p.completed.insert("smoke.skip"@),
                counts: Counts { skipped: (p.counts.skipped + 1) as u32, ..p.counts },
                ..p
            },
            Ok::<Option<EventModel>, Seq<char>>(Some(EventModel::Skip { name: "smoke.skip"@, reason: "unsupported"@ })),
        ),
        parse_step(p, "@@VMSA UNKNOWN value=1"@).1 is Err,
{
    reveal_strlit("@@VMSA CAP rme=1");
    reveal_strlit("@@VMSA SKIP smoke.skip reason=unsupported");
    reveal_strlit("@@VMSA UNKNOWN value=1");
    reveal_strlit("@@VMSA ");
    reveal_strlit(" ");
    reveal_strlit("CAP");
    reveal_strlit("SKIP");
    reveal_strlit("UNKNOWN");
    reveal_strlit("rme");
    reveal_strlit("smoke.skip");
    reveal_strlit("reason");
    reveal_strlit("unsupported");
    reveal_strlit("value");
    reveal_strlit("=");
    reveal_strlit("BEGIN");
    reveal_strlit("RUN");
    reveal_strlit("PASS");
    reveal_strlit("FAIL");
    reveal_strlit("END");
    assert("CAP"@[0] == 'C' && "RUN"@[0] == 'R' && "END"@[0] == 'E' && "BEGIN"@.len() == 5);
    assert("SKIP"@[0] == 'S' && "PASS"@[0] == 'P' && "FAIL"@[0] == 'F');
    let cap = seq!["CAP"@, "rme"@ + "="@ + seq!['1']];
    assert("@@VMSA CAP rme=1"@ =~= "@@VMSA "@ + joined(cap)) by {
        reveal_with_fuel(joined, 2);
    }
    assert(is_word(cap[0]) && is_word(cap[1]));
    lemma_parse_record(p, "@@VMSA CAP rme=1"@, cap);
    lemma_split_key_value("rme"@, seq!['1']);
    lemma_digit_value('1');
    assert(is_protocol_name("rme"@));
    let skip = seq!["SKIP"@, "smoke.skip"@, "reason"@ + "="@ + "unsupported"@];
    assert("@@VMSA SKIP smoke.skip reason=unsupported"@ =~= "@@VMSA "@ + joined(skip)) by {
        reveal_with_fuel(joined, 3);
    }
    assert(is_word(skip[0]) && is_word(skip[1]) && is_word(skip[2]));
    lemma_parse_record(p, "@@VMSA SKIP smoke.skip reason=unsupported"@, skip);
    lemma_split_key_value("reason"@, "unsupported"@);
    lemma_find_char_at("smoke.skip"@, '=', 10);
    assert(is_protocol_name("smoke.skip"@));
    let unknown = seq!["UNKNOWN"@, "value"@ + "="@ + seq!['1']];
    assert("@@VMSA UNKNOWN value=1"@ =~= "@@VMSA "@ + joined(unknown)) by {
        reveal_with_fuel(joined, 2);
    }
    assert(is_word(unknown[0]) && is_word(unknown[1]));
    lemma_parse_record(p, "@@VMSA UNKNOWN value=1"@, unknown);
}

proof fn lemma_literal_lines()
    ensures
        "@@VMSA BEGIN protocol=1 target=self-check"@ == begin_line('1', "self-check"@),
        "@@VMSA BEGIN protocol=1 target=x"@ == begin_line('1', "x"@),
        "@@VMSA BEGIN protocol=2 target=x"@ == begin_line('2', "x"@),
        "@@VMSA RUN smoke.pass"@ == name_line("RUN"@, "smoke.pass"@),
        "@@VMSA PASS smoke.pass"@ == name_line("PASS"@, "smoke.pass"@),
        "@@VMSA RUN smoke.late"@ == name_line("RUN"@, "smoke.late"@),
        "@@VMSA END passed=1 failed=0 skipped=1"@ == end_line('1', '0', '1'),
        "@@VMSA END passed=0 failed=0 skipped=0"@ == end_line('0', '0', '0'),
{
    reveal_strlit("@@VMSA BEGIN protocol=1 target=self-check");
    reveal_strlit("@@VMSA BEGIN protocol=1 target=x");
    reveal_strlit("@@VMSA BEGIN protocol=2 target=x");
    reveal_strlit("@@VMSA RUN smoke.pass");
    reveal_strlit("@@VMSA PASS smoke.pass");
    reveal_strlit("@@VMSA RUN smoke.late");
    reveal_strlit("@@VMSA END passed=1 failed=0 skipped=1");
    reveal_strlit("@@VMSA END passed=0 failed=0 skipped=0");
    reveal_strlit("@@VMSA BEGIN protocol=");
    reveal_strlit(" target=");
    reveal_strlit("self-check");
    reveal_strlit("x");
    reveal_strlit("@@VMSA ");
    reveal_strlit(" ");
    reveal_strlit("RUN");
    reveal_strlit("PASS");
    reveal_strlit("smoke.pass");
    reveal_strlit("smoke.late");
    reveal_strlit("@@VMSA END passed=");
    reveal_strlit(" failed=");
    reveal_strlit(" skipped=");
    assert("@@VMSA BEGIN protocol=1 target=self-check"@ =~= begin_line('1', "self-check"@));
    assert("@@VMSA BEGIN protocol=1 target=x"@ =~= begin_line('1', "x"@));
    assert("@@VMSA BEGIN protocol=2 target=x"@ =~= begin_line('2', "x"@));
    assert("@@VMSA RUN smoke.pass"@ =~= name_line("RUN"@, "smoke.pass"@));
    assert("@@VMSA PASS smoke.pass"@ =~= name_line("PASS"@, "smoke.pass"@));
    assert("@@VMSA RUN smoke.late"@ =~= name_line("RUN"@, "smoke.late"@));
    assert("@@VMSA END passed=1 failed=0 skipped=1"@ =~= end_line('1', '0', '1'));
    assert("@@VMSA END passed=0 failed=0 skipped=0"@ =~= end_line('0', '0', '0'));
}

#[verifier::rlimit(60)]
#[verifier::spinoff_prover]
proof fn lemma_self_check_stream_read()
    ensures
        read_all(initial_model(), self_check_stream()).1 is Ok,
        finish_spec(read_all(initial_model(), self_check_stream()).0) is Ok,
{
    lemma_literal_lines();
    reveal_strlit("self-check");
    reveal_strlit("x");
    reveal_strlit("RUN");
    reveal_strlit("PASS");
    reveal_strlit("smoke.pass");
    reveal_strlit("smoke.skip");
    reveal_strlit("smoke.late");
    assert(forall|i: int| 0 <= i < "smoke.pass"@.len() ==> is_name_char(#[trigger] "smoke.pass"@[i]));
    assert(forall|i: int| 0 <= i < "smoke.late"@.len() ==> is_name_char(#[trigger] "smoke.late"@[i]));
    assert(is_protocol_name("self-check"@) && is_protocol_name("x"@));
    assert("smoke.skip"@ != "smoke.pass"@) by {
        assert("smoke.skip"@[6] != "smoke.pass"@[6]);
    }
    // The well-formed stream.
    let p0 = initial_model();
    lemma_begin_line(p0, '1', "self-check"@);
    let p1 = parse_step(p0, begin_line('1', "self-check"@)).0;
    lemma_other_lines(p1);
    let p2 = p1;
    lemma_name_line(p2, "RUN"@, "smoke.pass"@);
    let p3 = parse_step(p2, name_line("RUN"@, "smoke.pass"@)).0;
    assert(p3 == ParserModel { active: Some("smoke.pass"@), ..p2 });
    lemma_name_line(p3, "PASS"@, "smoke.pass"@);
    let p4 = parse_step(p3, name_line("PASS"@, "smoke.pass"@)).0;
    assert(parse_step(p3, name_line("PASS"@, "smoke.pass"@)).1 is Ok);
    lemma_other_lines(p4);
    let p5 = parse_step(p4, "@@VMSA SKIP smoke.skip reason=unsupported"@).0;
    lemma_end_line(p5, '1', '0', '1');
    let p6 = parse_step(p5, end_line('1', '0', '1')).0;
    assert(parse_step(p5, end_line('1', '0', '1')).1 is Ok);
    let st = self_check_stream();
    assert(read_all(p0, st) == read_all(p1, st.drop_first()));
    assert(read_all(p1, st.drop_first()) == read_all(p2, st.skip(2))) by {
        assert(st.drop_first().drop_first() =~= st.skip(2));
    }
    assert(read_all(p2, st.skip(2)) == read_all(p3, st.skip(3))) by {
        assert(st.skip(2).drop_first() =~= st.skip(3));
    }
    assert(read_all(p3, st.skip(3)) == read_all(p4, st.skip(4))) by {
        assert(st.skip(3).drop_first() =~= st.skip(4));
    }
    assert(read_all(p4, st.skip(4)) == read_all(p5, st.skip(5))) by {
        assert(st.skip(4).drop_first() =~= st.skip(5));
    }
    assert(read_all(p5, st.skip(5)) == read_all(p6, st.skip(6))) by {
        assert(st.skip(5).drop_first() =~= st.skip(6));
    }
    assert(st.skip(6) =~= Seq::<Seq<char>>::empty());
    assert(read_all(p0, st) == (p6, Ok::<(), Seq<char>>(())));
    assert(finish_spec(p6) is Ok);
}

#[verifier::rlimit(60)]
#[verifier::spinoff_prover]
proof fn lemma_malformed_streams_rejected()
    ensures
        !accepted_malformed(malformed_streams().len()),
{
    lemma_literal_lines();
    reveal_strlit("self-check");
    reveal_strlit("x");
    reveal_strlit("RUN");
    reveal_strlit("PASS");
    reveal_strlit("smoke.pass");
    reveal_strlit("smoke.skip");
    reveal_strlit("smoke.late");
    assert(forall|i: int| 0 <= i < "smoke.pass"@.len() ==> is_name_char(#[trigger] "smoke.pass"@[i]));
    assert(forall|i: int| 0 <= i < "smoke.late"@.len() ==> is_name_char(#[trigger] "smoke.late"@[i]));
    assert(is_protocol_name("self-check"@) && is_protocol_name("x"@));
    let p0 = initial_model();
    // The malformed streams.
    let ms = malformed_streams();
    let bx = begin_line('1', "x"@);
    lemma_begin_line(p0, '1', "x"@);
    let q1 = parse_step(p0, bx).0;
    lemma_begin_line(q1, '1', "x"@);
    lemma_other_lines(q1);
    lemma_name_line(q1, "PASS"@, "smoke.pass"@);
    lemma_name_line(q1, "RUN"@, "smoke.pass"@);
    let q2 = parse_step(q1, name_line("RUN"@, "smoke.pass"@)).0;
    lemma_name_line(q2, "PASS"@, "smoke.pass"@);
    let q3 = parse_step(q2, name_line("PASS"@, "smoke.pass"@)).0;
    assert(parse_step(q2, name_line("PASS"@, "smoke.pass"@)).1 is Ok);
    lemma_end_line(q3, '0', '0', '0');
    lemma_end_line(q1, '0', '0', '0');
    let q4 = parse_step(q1, end_line('0', '0', '0')).0;
    lemma_begin_line(p0, '2', "x"@);
    reveal_strlit("@@VMSA PASS smoke.pass");
    reveal_strlit("@@VMSA ");
    reveal_strlit(" ");
    reveal_strlit("BEGIN");
    assert("PASS"@ != "BEGIN"@);
    assert(parse_step(p0, "@@VMSA PASS smoke.pass"@).1 is Err) by {
        let ws = seq!["PASS"@, "smoke.pass"@];
        assert("@@VMSA PASS smoke.pass"@ =~= "@@VMSA "@ + joined(ws)) by {
            reveal_with_fuel(joined, 2);
        }
        assert(is_word(ws[0]) && is_word(ws[1]));
        lemma_parse_record(p0, "@@VMSA PASS smoke.pass"@, ws);
    }
    assert(q4.ended);
    assert(parse_step(q4, name_line("RUN"@, "smoke.late"@)).1 is Err) by {
        let ws = seq!["RUN"@, "smoke.late"@];
        assert(name_line("RUN"@, "smoke.late"@) =~= "@@VMSA "@ + joined(ws)) by {
            reveal_with_fuel(joined, 2);
        }
        assert(is_word(ws[0]) && is_word(ws[1]));
        assert forall|i: int| 0 <= i < name_line("RUN"@, "smoke.late"@).len() implies (#[trigger] name_line(
            "RUN"@,
            "smoke.late"@,
        )[i] as u32) < 128 by {}
        lemma_parse_record(q4, name_line("RUN"@, "smoke.late"@), ws);
    }
    assert(rejects_any(p0, ms[0]).1);
    assert(rejects_any(p0, ms[1]).1) by {
        assert(rejects_any(q1, ms[1].drop_first()).1);
    }
    assert(rejects_any(p0, ms[2]).1) by {
        assert(rejects_any(q1, ms[2].drop_first()).1);
    }
    assert(rejects_any(p0, ms[3]).1) by {
        assert(rejects_any(q1, ms[3].drop_first()).1);
    }
    assert(rejects_any(p0, ms[4]).1) by {
        let t = ms[4];
        assert(t.drop_first().drop_first() =~= t.skip(2));
        assert(t.skip(2).drop_first() =~= t.skip(3));
        assert(rejects_any(q3, t.skip(3)).1);
        assert(rejects_any(q2, t.skip(2)).1);
        assert(rejects_any(q1, t.drop_first()).1);
    }
    assert(rejects_any(p0, ms[5]).1);
    assert(rejects_any(p0, ms[6]).1) by {
        let t = ms[6];
        assert(t.drop_first().drop_first() =~= t.skip(2));
        assert(rejects_any(q4, t.skip(2)).1);
        assert(rejects_any(q1, t.drop_first()).1);
    }
    assert(!accepted_malformed(0));
    assert(!accepted_malformed(1));
    assert(!accepted_malformed(2));
    assert(!accepted_malformed(3));
    assert(!accepted_malformed(4));
    assert(!accepted_malformed(5));
    assert(!accepted_malformed(6));
    assert(!accepted_malformed(7));
}

#[verifier::rlimit(60)]
#[verifier::spinoff_prover]
proof fn lemma_oversized_records_rejected()
    ensures
        parse_step(initial_model(), "@@VMSA BEGIN protocol=1 target=x"@).1 is Ok,
        parse_step(parse_step(initial_model(), "@@VMSA BEGIN protocol=1 target=x"@).0, run_of_xs(PROTOCOL_LINE_LIMIT as nat)).1 is Err,
        parse_step(parse_step(initial_model(), "@@VMSA BEGIN protocol=1 target=x"@).0, run_of_xs((TEST_NAME_LIMIT + 1) as nat)).1 is Err,
{
    lemma_literal_lines();
    reveal_strlit("self-check");
    reveal_strlit("x");
    reveal_strlit("RUN");
    reveal_strlit("PASS");
    reveal_strlit("smoke.pass");
    reveal_strlit("smoke.skip");
    reveal_strlit("smoke.late");
    assert(forall|i: int| 0 <= i < "smoke.pass"@.len() ==> is_name_char(#[trigger] "smoke.pass"@[i]));
    assert(forall|i: int| 0 <= i < "smoke.late"@.len() ==> is_name_char(#[trigger] "smoke.late"@[i]));
    assert(is_protocol_name("self-check"@) && is_protocol_name("x"@));
    let p0 = initial_model();
    lemma_begin_line(p0, '1', "x"@);
    let q1 = parse_step(p0, begin_line('1', "x"@)).0;
    // The oversized line and the oversized name.
    let big = run_of_xs(PROTOCOL_LINE_LIMIT as nat);
    reveal_strlit("@@VMSA RUN ");
    reveal_strlit("@@VMSA");
    assert forall|i: int| 0 <= i < big.len() implies (#[trigger] big[i] as u32) < 128 by {}
    lemma_ascii_utf8_len(big);
    assert(big.subrange(0, 6) =~= "@@VMSA"@);
    lemma_oversized_line_rejected(q1, big);
    let xs = Seq::new((TEST_NAME_LIMIT + 1) as nat, |i: int| 'x');
    reveal_strlit("@@VMSA ");
    reveal_strlit(" ");
    assert(run_of_xs((TEST_NAME_LIMIT + 1) as nat) =~= name_line("RUN"@, xs));
    lemma_name_line(q1, "RUN"@, xs);
    assert(!is_protocol_name(xs));
}

/// The parser passes its own self-check: it reads the well-formed stream
/// whole, rejects every malformed stream, and rejects an oversized line and an
/// oversized test name.
pub proof fn lemma_self_check_passes()
    ensures
        self_check_spec() is Ok,
{
    lemma_self_check_stream_read();
    lemma_malformed_streams_rejected();
    lemma_oversized_records_rejected();
}

} // verus!
