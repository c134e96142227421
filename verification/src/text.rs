//! Character-level text helpers shared by the protocol, argument and report code.
//!
//! Every text value is modelled by its sequence of Unicode scalar values (`s@`).
use vstd::prelude::*;
use vstd::string::StringExecFns;

verus! {

/// ASCII whitespace as `u8::is_ascii_whitespace` defines it.
pub open spec fn is_ascii_ws(c: char) -> bool {
    c == ' ' || c == '\t' || c == '\n' || c == '\x0C' || c == '\r'
}

/// The words that `split_ascii_whitespace` yields, with `cur` the word read so far.
pub open spec fn words_from(s: Seq<char>, cur: Seq<char>) -> Seq<Seq<char>>
    decreases s.len(),
{
    if s.len() == 0 {
        if cur.len() == 0 { seq![] } else { seq![cur] }
    } else if is_ascii_ws(s[0]) {
        (if cur.len() == 0 { seq![] } else { seq![cur] }) + words_from(s.drop_first(), seq![])
    } else {
        words_from(s.drop_first(), cur.push(s[0]))
    }
}

/// The non-empty runs of non-whitespace characters of `s`, in order.
pub open spec fn ascii_words(s: Seq<char>) -> Seq<Seq<char>> {
    words_from(s, seq![])
}

/// `w` is a non-empty word without ASCII whitespace.
pub open spec fn is_word(w: Seq<char>) -> bool {
    0 < w.len() && forall|i: int| 0 <= i < w.len() ==> !is_ascii_ws(#[trigger] w[i])
}

/// The characters of a word join the word being read.
proof fn lemma_words_from_word(w: Seq<char>, rest: Seq<char>, cur: Seq<char>)
    requires
        forall|i: int| 0 <= i < w.len() ==> !is_ascii_ws(#[trigger] w[i]),
    ensures
        words_from(w + rest, cur) == words_from(rest, cur + w),
    decreases w.len(),
{
    if w.len() == 0 {
        assert(w + rest =~= rest);
        assert(cur + w =~= cur);
    } else {
        assert((w + rest)[0] == w[0]);
        assert((w + rest).drop_first() =~= w.drop_first() + rest);
        assert(forall|i: int| 0 <= i < w.drop_first().len() ==> #[trigger] w.drop_first()[i] == w[i + 1]);
        lemma_words_from_word(w.drop_first(), rest, cur.push(w[0]));
        assert(cur.push(w[0]) + w.drop_first() =~= cur + w);
    }
}

/// A word followed by a space is read as that word.
pub proof fn lemma_words_space(w: Seq<char>, rest: Seq<char>)
    requires
        is_word(w),
    ensures
        ascii_words(w + (" "@ + rest)) == seq![w] + ascii_words(rest),
{
    reveal_strlit(" ");
    lemma_words_from_word(w, " "@ + rest, seq![]);
    assert(seq![] + w =~= w);
    assert((" "@ + rest).drop_first() =~= rest);
}

/// A last word is read as that word.
pub proof fn lemma_words_last(w: Seq<char>)
    requires
        is_word(w),
    ensures
        ascii_words(w) == seq![w],
{
    lemma_words_from_word(w, seq![], seq![]);
    assert(w + Seq::<char>::empty() =~= w);
    assert(Seq::<char>::empty() + w =~= w);
}

/// A decimal has at least one digit, only digits, and at most twenty digits below 10^20.
pub proof fn lemma_decimal_digits(n: nat)
    ensures
        0 < decimal(n).len(),
        n < pow10(20) ==> decimal(n).len() <= 20,
        forall|i: int| 0 <= i < decimal(n).len() ==> '0' <= #[trigger] decimal(n)[i] <= '9',
    decreases n,
{
    if n >= 10 {
        lemma_decimal_digits(n / 10);
        assert forall|i: int| 0 <= i < decimal(n).len() implies '0' <= #[trigger] decimal(n)[i] <= '9' by {
            if i < decimal(n).len() - 1 {
                assert(decimal(n)[i] == decimal(n / 10)[i]);
            }
        }
    }
    if n < pow10(20) {
        lemma_decimal_len_below(n, 20);
    }
}

/// Below 10^k a decimal has at most k digits.
proof fn lemma_decimal_len_below(n: nat, k: nat)
    requires
        n < pow10(k),
        k > 0,
    ensures
        decimal(n).len() <= k,
    decreases n,
{
    if n >= 10 {
        assert(pow10(1) == 10) by {
            assert(pow10(0) == 1);
        }
        assert(k > 1);
        assert(pow10(k) == 10 * pow10((k - 1) as nat));
        lemma_decimal_len_below(n / 10, (k - 1) as nat);
    }
}

pub open spec fn pow10(k: nat) -> nat
    decreases k,
{
    if k == 0 { 1 } else { 10 * pow10((k - 1) as nat) }
}

/// ASCII text takes one byte per character in UTF-8.
pub proof fn lemma_ascii_utf8_len(s: Seq<char>)
    requires
        forall|i: int| 0 <= i < s.len() ==> (#[trigger] s[i] as u32) < 128,
    ensures
        vstd::utf8::encode_utf8(s).len() == s.len(),
    decreases s.len(),
{
    if s.len() > 0 {
        assert(forall|i: int| 0 <= i < s.drop_first().len() ==> #[trigger] s.drop_first()[i] == s[i + 1]);
        lemma_ascii_utf8_len(s.drop_first());
    }
}

/// The first `c` in `s` is at `k` when `s[k]` is `c` and no earlier character is.
pub proof fn lemma_find_char_at(s: Seq<char>, c: char, k: int)
    requires
        0 <= k <= s.len(),
        k < s.len() ==> s[k] == c,
        forall|j: int| 0 <= j < k ==> s[j] != c,
    ensures
        find_char(s, c) == k,
{
    lemma_find_char(s, c);
    if find_char(s, c) < k {
        assert(s[find_char(s, c) as int] == c);
    }
}

/// Words joined by single spaces.
pub open spec fn joined(ws: Seq<Seq<char>>) -> Seq<char>
    decreases ws.len(),
{
    if ws.len() <= 1 {
        if ws.len() == 0 { seq![] } else { ws[0] }
    } else {
        ws[0] + (" "@ + joined(ws.drop_first()))
    }
}

/// Words joined by single spaces are read back as those words.
pub proof fn lemma_joined_words(ws: Seq<Seq<char>>)
    requires
        ws.len() > 0,
        forall|k: int| 0 <= k < ws.len() ==> is_word(#[trigger] ws[k]),
    ensures
        ascii_words(joined(ws)) == ws,
    decreases ws.len(),
{
    if ws.len() == 1 {
        lemma_words_last(ws[0]);
        assert(seq![ws[0]] =~= ws);
    } else {
        let rest = ws.drop_first();
        assert(forall|k: int| 0 <= k < rest.len() ==> #[trigger] rest[k] == ws[k + 1]);
        lemma_joined_words(rest);
        assert(is_word(ws[0]));
        lemma_words_space(ws[0], joined(rest));
        assert(seq![ws[0]] + rest =~= ws);
    }
}

/// Index of the first `c` in `s`, or `s.len()` when `s` holds none.
pub open spec fn find_char(s: Seq<char>, c: char) -> nat
    decreases s.len(),
{
    if s.len() == 0 {
        0
    } else if s[0] == c {
        0
    } else {
        1 + find_char(s.drop_first(), c)
    }
}

pub proof fn lemma_find_char(s: Seq<char>, c: char)
    ensures
        find_char(s, c) <= s.len(),
        forall|j: int| 0 <= j < find_char(s, c) ==> s[j] != c,
        find_char(s, c) < s.len() ==> s[find_char(s, c) as int] == c,
    decreases s.len(),
{
    if s.len() > 0 && s[0] != c {
        lemma_find_char(s.drop_first(), c);
        assert forall|j: int| 0 <= j < find_char(s, c) implies s[j] != c by {
            if j > 0 {
                assert(s[j] == s.drop_first()[j - 1]);
            }
        }
    }
}

/// `s` holds `needle` as a contiguous part.
pub open spec fn has_infix(s: Seq<char>, needle: Seq<char>) -> bool {
    exists|i: int| 0 <= i <= s.len() - needle.len() && #[trigger] s.subrange(i, i + needle.len()) == needle
}

/// The value of a sequence of ASCII digits.
pub open spec fn digits_value(s: Seq<char>) -> nat
    decreases s.len(),
{
    if s.len() == 0 {
        0
    } else {
        digits_value(s.drop_last()) * 10 + ((s.last() as int - '0' as int) as nat)
    }
}

pub open spec fn is_digit(c: char) -> bool {
    '0' <= c <= '9'
}

pub open spec fn all_digits(s: Seq<char>) -> bool {
    forall|i: int| 0 <= i < s.len() ==> is_digit(#[trigger] s[i])
}

/// The digits of an unsigned decimal as `str::parse` reads them: an optional `+`, then digits.
pub open spec fn unsigned_body(s: Seq<char>) -> Seq<char> {
    if s.len() > 0 && s[0] == '+' { s.drop_first() } else { s }
}

/// What `str::parse` gives for an unsigned integer type whose largest value is `limit`.
pub open spec fn parse_unsigned(s: Seq<char>, limit: nat) -> Option<nat> {
    let body = unsigned_body(s);
    if body.len() > 0 && all_digits(body) && digits_value(body) <= limit {
        Some(digits_value(body))
    } else {
        None
    }
}

pub open spec fn digit_char(d: nat) -> char {
    if d == 0 { '0' }
    else if d == 1 { '1' }
    else if d == 2 { '2' }
    else if d == 3 { '3' }
    else if d == 4 { '4' }
    else if d == 5 { '5' }
    else if d == 6 { '6' }
    else if d == 7 { '7' }
    else if d == 8 { '8' }
    else { '9' }
}

/// The decimal text of `n`, as `to_string` writes an unsigned integer.
pub open spec fn decimal(n: nat) -> Seq<char>
    decreases n,
{
    if n < 10 {
        seq![digit_char(n)]
    } else {
        decimal(n / 10).push(digit_char(n % 10))
    }
}

/// `s` followed by spaces up to `width` characters, as `{:<width}` pads.
pub open spec fn pad_right(s: Seq<char>, width: nat) -> Seq<char> {
    if s.len() >= width { s } else { s + Seq::new((width - s.len()) as nat, |i: int| ' ') }
}

/// Appends one character through `String::push`, which std documents as
/// appending the given char to the end of the string.
#[verifier::external_body]
pub(crate) fn push_char(s: &mut String, c: char)
    ensures
        final(s)@ == old(s)@.push(c),
{
    s.push(c)
}

/// The characters of `s`.
pub fn chars_of(s: &str) -> (r: Vec<char>)
    ensures
        r@ == s@,
{
    broadcast use vstd::string::group_string_axioms;
    let mut r: Vec<char> = Vec::new();
    for c in it: s.chars()
        invariant
            it.seq() == s@,
            r@ == it.seq().take(it.index() as int),
        ensures
            r@ == s@,
    {
        assert(it.seq().take(it.index() as int).push(c) =~= it.seq().take(it.index() + 1));
        r.push(c);
    }
    r
}

/// A string holding exactly the characters of `cs`.
pub fn string_of(cs: &[char]) -> (r: String)
    ensures
        r@ == cs@,
{
    let mut r = String::new();
    let mut i: usize = 0;
    while i < cs.len()
        invariant
            i <= cs@.len(),
            r@ == cs@.take(i as int),
        decreases cs@.len() - i,
    {
        push_char(&mut r, cs[i]);
        assert(cs@.take(i as int).push(cs@[i as int]) =~= cs@.take(i + 1));
        i = i + 1;
    }
    assert(cs@.take(i as int) =~= cs@);
    r
}

/// Appends the characters of `cs` to `out`.
pub fn push_chars(out: &mut String, cs: &[char])
    ensures
        final(out)@ == old(out)@ + cs@,
{
    let ghost start = out@;
    let mut i: usize = 0;
    while i < cs.len()
        invariant
            i <= cs@.len(),
            out@ == start + cs@.take(i as int),
        decreases cs@.len() - i,
    {
        push_char(out, cs[i]);
        assert(start + cs@.take(i as int) + seq![cs@[i as int]] =~= start + cs@.take(i + 1));
        i = i + 1;
    }
    assert(cs@.take(i as int) =~= cs@);
}

/// A new string holding `a` followed by `b`.
pub fn concat(a: &str, b: &str) -> (r: String)
    ensures
        r@ == a@ + b@,
{
    let mut r = String::from_str(a);
    r.append(b);
    r
}

/// Appends the decimal text of `n` to `out`.
pub fn push_decimal(out: &mut String, n: u64)
    ensures
        final(out)@ == old(out)@ + decimal(n as nat),
    decreases n,
{
    if n >= 10 {
        push_decimal(out, n / 10);
    }
    let d = n % 10;
    let c = if d == 0 { '0' }
        else if d == 1 { '1' }
        else if d == 2 { '2' }
        else if d == 3 { '3' }
        else if d == 4 { '4' }
        else if d == 5 { '5' }
        else if d == 6 { '6' }
        else if d == 7 { '7' }
        else if d == 8 { '8' }
        else { '9' };
    push_char(out, c);
    proof {
        if n >= 10 {
            assert(old(out)@ + decimal((n / 10) as nat) + seq![c] =~= old(out)@ + decimal(n as nat));
        } else {
            assert(old(out)@ + seq![c] =~= old(out)@ + decimal(n as nat));
        }
    }
}

/// The decimal text of `n`.
pub fn decimal_text(n: u64) -> (r: String)
    ensures
        r@ == decimal(n as nat),
{
    let mut r = String::new();
    push_decimal(&mut r, n);
    assert(Seq::<char>::empty() + decimal(n as nat) =~= decimal(n as nat));
    r
}

/// Appends `s` padded with spaces to `width` characters.
pub fn push_padded(out: &mut String, s: &[char], width: usize)
    ensures
        final(out)@ == old(out)@ + pad_right(s@, width as nat),
{
    let ghost start = out@;
    push_chars(out, s);
    let mut n = s.len();
    while n < width
        invariant
            s@.len() <= n <= width || (n == s@.len() && n >= width),
            out@ == start + s@ + Seq::new((n - s@.len()) as nat, |i: int| ' '),
        decreases width - n,
    {
        push_char(out, ' ');
        assert(start + s@ + Seq::new((n - s@.len()) as nat, |i: int| ' ') + seq![' ']
            =~= start + s@ + Seq::new((n + 1 - s@.len()) as nat, |i: int| ' '));
        n = n + 1;
    }
    if s.len() >= width {
        assert(out@ =~= start + pad_right(s@, width as nat));
    } else {
        assert(out@ =~= start + pad_right(s@, width as nat));
    }
}

/// Whether `a` and `b` hold the same characters.
pub fn same_chars(a: &[char], b: &[char]) -> (r: bool)
    ensures
        r == (a@ == b@),
{
    if a.len() != b.len() {
        return false;
    }
    let mut i: usize = 0;
    while i < a.len()
        invariant
            a@.len() == b@.len(),
            i <= a@.len(),
            forall|j: int| 0 <= j < i ==> a@[j] == b@[j],
        decreases a@.len() - i,
    {
        if a[i] != b[i] {
            return false;
        }
        i = i + 1;
    }
    assert(a@ =~= b@);
    true
}

/// Whether `s` begins with `prefix`.
pub fn starts_with(s: &[char], prefix: &[char]) -> (r: bool)
    ensures
        r == prefix@.is_prefix_of(s@),
{
    if prefix.len() > s.len() {
        return false;
    }
    let mut i: usize = 0;
    while i < prefix.len()
        invariant
            prefix@.len() <= s@.len(),
            i <= prefix@.len(),
            forall|j: int| 0 <= j < i ==> prefix@[j] == s@[j],
        decreases prefix@.len() - i,
    {
        if prefix[i] != s[i] {
            return false;
        }
        i = i + 1;
    }
    assert(s@.take(prefix@.len() as int) =~= prefix@);
    true
}

/// Whether `s` holds `needle` at position `at`.
fn matches_at(s: &[char], needle: &[char], at: usize) -> (r: bool)
    requires
        at + needle@.len() <= s@.len(),
    ensures
        r == (s@.subrange(at as int, at + needle@.len()) == needle@),
{
    let n = needle.len();
    let slen = s.len();
    let mut i: usize = 0;
    while i < n
        invariant
            n == needle@.len(),
            slen == s@.len(),
            at + needle@.len() <= s@.len(),
            i <= needle@.len(),
            forall|j: int| 0 <= j < i ==> needle@[j] == s@[at + j],
        decreases needle@.len() - i,
    {
        if needle[i] != s[at + i] {
            assert(s@.subrange(at as int, at + needle@.len())[i as int] != needle@[i as int]);
            return false;
        }
        i = i + 1;
    }
    assert(s@.subrange(at as int, at + needle@.len()) =~= needle@);
    true
}

/// Whether `s` holds `needle` as a contiguous part.
pub fn contains_chars(s: &[char], needle: &[char]) -> (r: bool)
    ensures
        r == has_infix(s@, needle@),
{
    let slen = s.len();
    let nlen = needle.len();
    if nlen > slen {
        return false;
    }
    let last = slen - nlen;
    let mut at: usize = 0;
    loop
        invariant
            slen == s@.len(),
            nlen == needle@.len(),
            last == slen - nlen,
            at <= last,
            forall|i: int| 0 <= i < at ==> #[trigger] s@.subrange(i, i + needle@.len()) != needle@,
        decreases last - at,
    {
        if matches_at(s, needle, at) {
            return true;
        }
        if at == last {
            return false;
        }
        at = at + 1;
    }
}

/// The characters of `s` from `start` up to `end`.
pub fn sub_chars(s: &[char], start: usize, end: usize) -> (r: Vec<char>)
    requires
        start <= end <= s@.len(),
    ensures
        r@ == s@.subrange(start as int, end as int),
{
    let mut r: Vec<char> = Vec::new();
    let mut i = start;
    while i < end
        invariant
            start <= i <= end <= s@.len(),
            r@ == s@.subrange(start as int, i as int),
        decreases end - i,
    {
        r.push(s[i]);
        assert(s@.subrange(start as int, i as int).push(s@[i as int]) =~= s@.subrange(start as int, i + 1));
        i = i + 1;
    }
    r
}

/// Index of the first `c` in `s`, or its length when `s` holds none.
pub fn find(s: &[char], c: char) -> (r: usize)
    ensures
        r == find_char(s@, c),
{
    proof { lemma_find_char(s@, c); }
    let mut i: usize = 0;
    while i < s.len()
        invariant
            i <= s@.len(),
            i <= find_char(s@, c),
            forall|j: int| 0 <= j < i ==> s@[j] != c,
        decreases s@.len() - i,
    {
        proof { lemma_find_char(s@, c); }
        if s[i] == c {
            return i;
        }
        i = i + 1;
    }
    i
}

/// The character sequences held by a sequence of character vectors.
pub open spec fn views(v: Seq<Vec<char>>) -> Seq<Seq<char>> {
    v.map_values(|x: Vec<char>| x@)
}

/// The words of `s` separated by ASCII whitespace, as `split_ascii_whitespace` yields them.
pub fn split_words(s: &[char]) -> (r: Vec<Vec<char>>)
    ensures
        views(r@) == ascii_words(s@),
{
    let mut out: Vec<Vec<char>> = Vec::new();
    let mut cur: Vec<char> = Vec::new();
    let mut i: usize = 0;
    assert(s@.skip(0) =~= s@);
    while i < s.len()
        invariant
            i <= s@.len(),
            views(out@) + words_from(s@.skip(i as int), cur@) == ascii_words(s@),
        decreases s@.len() - i,
    {
        let ghost rest = s@.skip(i as int);
        assert(rest.drop_first() =~= s@.skip(i + 1));
        let c = s[i];
        assert(rest[0] == c);
        if c == ' ' || c == '\t' || c == '\n' || c == '\x0C' || c == '\r' {
            if cur.len() > 0 {
                let ghost before = views(out@);
                let ghost w = cur@;
                let ghost tail = words_from(s@.skip(i + 1), seq![]);
                out.push(cur);
                assert(views(out@) =~= before.push(w));
                assert(before + (seq![w] + tail) =~= before.push(w) + tail);
                cur = Vec::new();
            } else {
                assert(cur@ =~= Seq::<char>::empty());
                assert(Seq::<Seq<char>>::empty() + words_from(s@.skip(i + 1), seq![])
                    =~= words_from(s@.skip(i + 1), seq![]));
            }
            assert(cur@ =~= Seq::<char>::empty());
        } else {
            cur.push(c);
        }
        i = i + 1;
    }
    assert(s@.skip(i as int) =~= Seq::<char>::empty());
    if cur.len() > 0 {
        let ghost before = views(out@);
        let ghost w = cur@;
        out.push(cur);
        assert(views(out@) =~= before.push(w));
        assert(before + seq![w] =~= before.push(w));
    } else {
        assert(views(out@) + Seq::<Seq<char>>::empty() =~= views(out@));
    }
    out
}

pub proof fn lemma_digits_value_monotone(s: Seq<char>, n: int)
    requires
        0 <= n <= s.len(),
        all_digits(s),
    ensures
        digits_value(s.take(n)) <= digits_value(s),
    decreases s.len() - n,
{
    if n < s.len() {
        lemma_digits_value_monotone(s, n + 1);
        assert(s.take(n + 1).drop_last() =~= s.take(n));
        assert(is_digit(s[n]));
    } else {
        assert(s.take(n) =~= s);
    }
}

/// Reads an unsigned decimal no larger than `limit`, as `str::parse` does for
/// an unsigned type whose largest value is `limit`.
pub fn parse_unsigned_chars(s: &[char], limit: u64) -> (r: Option<u64>)
    ensures
        match parse_unsigned(s@, limit as nat) {
            Some(v) => r == Some(v as u64),
            None => r is None,
        },
{
    let start: usize = if s.len() > 0 && s[0] == '+' { 1 } else { 0 };
    let ghost body = unsigned_body(s@);
    assert(body =~= s@.skip(start as int));
    if start >= s.len() {
        assert(body.len() == 0);
        return None;
    }
    let mut i = start;
    while i < s.len()
        invariant
            start <= i <= s@.len(),
            body == s@.skip(start as int),
            body == unsigned_body(s@),
            forall|j: int| start <= j < i ==> is_digit(#[trigger] s@[j]),
        decreases s@.len() - i,
    {
        if !('0' <= s[i] && s[i] <= '9') {
            assert(!is_digit(body[i - start]));
            return None;
        }
        i = i + 1;
    }
    assert(all_digits(body)) by {
        assert forall|j: int| 0 <= j < body.len() implies is_digit(#[trigger] body[j]) by {
            assert(body[j] == s@[j + start]);
        }
    }
    let mut value: u128 = 0;
    let mut k = start;
    while k < s.len()
        invariant
            start <= k <= s@.len(),
            body == s@.skip(start as int),
            body == unsigned_body(s@),
            all_digits(body),
            value == digits_value(body.take(k - start)),
            value <= limit,
        decreases s@.len() - k,
    {
        assert(body[k - start] == s@[k as int]);
        assert(is_digit(body[k - start]));
        let d = (s[k] as u32 - '0' as u32) as u128;
        assert(body.take(k + 1 - start).drop_last() =~= body.take(k - start));
        assert(body.take(k + 1 - start).last() == s@[k as int]);
        let next = value * 10 + d;
        assert(next == digits_value(body.take(k + 1 - start)));
        if next > limit as u128 {
            proof { lemma_digits_value_monotone(body, k + 1 - start); }
            return None;
        }
        value = next;
        k = k + 1;
    }
    assert(body.take(k - start) =~= body);
    Some(value as u64)
}


/// Unicode `White_Space`, the whitespace of `char::is_whitespace` and `str::trim`.
pub open spec fn is_white_space(c: char) -> bool {
    ('\t' <= c && c <= '\r') || c == ' ' || c == '\u{85}' || c == '\u{A0}' || c == '\u{1680}'
        || ('\u{2000}' <= c && c <= '\u{200A}') || c == '\u{2028}' || c == '\u{2029}' || c == '\u{202F}'
        || c == '\u{205F}' || c == '\u{3000}'
}

pub open spec fn trim_start(s: Seq<char>) -> Seq<char>
    decreases s.len(),
{
    if s.len() > 0 && is_white_space(s[0]) { trim_start(s.drop_first()) } else { s }
}

pub open spec fn trim_end(s: Seq<char>) -> Seq<char>
    decreases s.len(),
{
    if s.len() > 0 && is_white_space(s.last()) { trim_end(s.drop_last()) } else { s }
}

/// `s` without leading and trailing whitespace, as `str::trim` gives it.
pub open spec fn trim(s: Seq<char>) -> Seq<char> {
    trim_end(trim_start(s))
}

pub open spec fn without_cr(line: Seq<char>) -> Seq<char> {
    if line.len() > 0 && line.last() == '\r' { line.drop_last() } else { line }
}

/// The lines that `str::lines` yields, with `cur` the line read so far: each
/// `\n` ends a line, which then loses one trailing `\r`; a last line without
/// `\n` is yielded as it is, and an empty one not at all.
pub open spec fn lines_from(s: Seq<char>, cur: Seq<char>) -> Seq<Seq<char>>
    decreases s.len(),
{
    if s.len() == 0 {
        if cur.len() == 0 { seq![] } else { seq![cur] }
    } else if s[0] == '\n' {
        seq![without_cr(cur)] + lines_from(s.drop_first(), seq![])
    } else {
        lines_from(s.drop_first(), cur.push(s[0]))
    }
}

pub open spec fn text_lines(s: Seq<char>) -> Seq<Seq<char>> {
    lines_from(s, seq![])
}

pub fn is_white_space_char(c: char) -> (r: bool)
    ensures
        r == is_white_space(c),
{
    ('\t' <= c && c <= '\r') || c == ' ' || c == '\u{85}' || c == '\u{A0}' || c == '\u{1680}'
        || ('\u{2000}' <= c && c <= '\u{200A}') || c == '\u{2028}' || c == '\u{2029}' || c == '\u{202F}'
        || c == '\u{205F}' || c == '\u{3000}'
}

/// `s` without leading and trailing whitespace.
pub fn trim_chars(s: &[char]) -> (r: Vec<char>)
    ensures
        r@ == trim(s@),
{
    let mut a: usize = 0;
    assert(s@.skip(0) =~= s@);
    while a < s.len() && is_white_space_char(s[a])
        invariant
            a <= s@.len(),
            trim_start(s@) == trim_start(s@.skip(a as int)),
        decreases s@.len() - a,
    {
        assert(s@.skip(a as int).drop_first() =~= s@.skip(a + 1));
        a = a + 1;
    }
    assert(trim_start(s@) == s@.skip(a as int));
    let mut b: usize = s.len();
    assert(s@.skip(a as int) =~= s@.subrange(a as int, b as int));
    while b > a && is_white_space_char(s[b - 1])
        invariant
            a <= b <= s@.len(),
            trim(s@) == trim_end(s@.subrange(a as int, b as int)),
        decreases b,
    {
        assert(s@.subrange(a as int, b as int).drop_last() =~= s@.subrange(a as int, b - 1));
        b = b - 1;
    }
    sub_chars(s, a, b)
}

/// The lines of `s`, as `str::lines` yields them.
pub fn split_lines(s: &[char]) -> (r: Vec<Vec<char>>)
    ensures
        views(r@) == text_lines(s@),
{
    let mut out: Vec<Vec<char>> = Vec::new();
    let mut cur: Vec<char> = Vec::new();
    let mut i: usize = 0;
    assert(s@.skip(0) =~= s@);
    while i < s.len()
        invariant
            i <= s@.len(),
            views(out@) + lines_from(s@.skip(i as int), cur@) == text_lines(s@),
        decreases s@.len() - i,
    {
        let ghost rest = s@.skip(i as int);
        assert(rest.drop_first() =~= s@.skip(i + 1));
        let c = s[i];
        assert(rest[0] == c);
        if c == '\n' {
            if cur.len() > 0 && cur[cur.len() - 1] == '\r' {
                cur.pop();
            }
            let ghost before = views(out@);
            let ghost w = cur@;
            let ghost tail = lines_from(s@.skip(i + 1), seq![]);
            out.push(cur);
            assert(views(out@) =~= before.push(w));
            assert(before + (seq![w] + tail) =~= before.push(w) + tail);
            cur = Vec::new();
            assert(cur@ =~= Seq::<char>::empty());
        } else {
            cur.push(c);
        }
        i = i + 1;
    }
    assert(s@.skip(i as int) =~= Seq::<char>::empty());
    if cur.len() > 0 {
        let ghost before = views(out@);
        let ghost w = cur@;
        out.push(cur);
        assert(views(out@) =~= before.push(w));
        assert(before + seq![w] =~= before.push(w));
    } else {
        assert(views(out@) + Seq::<Seq<char>>::empty() =~= views(out@));
    }
    out
}

/// The pieces of `s` between single spaces, as `str::split(' ')` yields them,
/// with `cur` the piece read so far.
pub open spec fn pieces_from(s: Seq<char>, cur: Seq<char>) -> Seq<Seq<char>>
    decreases s.len(),
{
    if s.len() == 0 {
        seq![cur]
    } else if s[0] == ' ' {
        seq![cur] + pieces_from(s.drop_first(), seq![])
    } else {
        pieces_from(s.drop_first(), cur.push(s[0]))
    }
}

pub open spec fn space_pieces(s: Seq<char>) -> Seq<Seq<char>> {
    pieces_from(s, seq![])
}

/// The pieces of `s` between single spaces.
pub fn split_spaces(s: &[char]) -> (r: Vec<Vec<char>>)
    ensures
        views(r@) == space_pieces(s@),
{
    let mut out: Vec<Vec<char>> = Vec::new();
    let mut cur: Vec<char> = Vec::new();
    let mut i: usize = 0;
    assert(s@.skip(0) =~= s@);
    assert(views(out@) =~= Seq::<Seq<char>>::empty());
    while i < s.len()
        invariant
            i <= s@.len(),
            views(out@) + pieces_from(s@.skip(i as int), cur@) == space_pieces(s@),
        decreases s@.len() - i,
    {
        let ghost rest = s@.skip(i as int);
        assert(rest.drop_first() =~= s@.skip(i + 1));
        let c = s[i];
        assert(rest[0] == c);
        if c == ' ' {
            let ghost before = views(out@);
            let ghost w = cur@;
            let ghost tail = pieces_from(s@.skip(i + 1), seq![]);
            out.push(cur);
            assert(views(out@) =~= before.push(w));
            assert(before + (seq![w] + tail) =~= before.push(w) + tail);
            cur = Vec::new();
            assert(cur@ =~= Seq::<char>::empty());
        } else {
            cur.push(c);
        }
        i = i + 1;
    }
    assert(s@.skip(i as int) =~= Seq::<char>::empty());
    let ghost before = views(out@);
    let ghost w = cur@;
    out.push(cur);
    assert(views(out@) =~= before.push(w));
    assert(before + seq![w] =~= before.push(w));
    out
}

/// `n` copies of `c`.
pub fn repeat_char(c: char, n: usize) -> (r: String)
    ensures
        r@ == Seq::new(n as nat, |i: int| c),
{
    let mut r = String::new();
    let mut k: usize = 0;
    while k < n
        invariant
            k <= n,
            r@ == Seq::new(k as nat, |i: int| c),
        decreases n - k,
    {
        push_char(&mut r, c);
        assert(Seq::new(k as nat, |i: int| c).push(c) =~= Seq::new((k + 1) as nat, |i: int| c));
        k = k + 1;
    }
    r
}

/// The digit character of `d`, which is below ten.
pub fn digit(d: u64) -> (r: char)
    requires
        d < 10,
    ensures
        r == digit_char(d as nat),
{
    if d == 0 { '0' }
    else if d == 1 { '1' }
    else if d == 2 { '2' }
    else if d == 3 { '3' }
    else if d == 4 { '4' }
    else if d == 5 { '5' }
    else if d == 6 { '6' }
    else if d == 7 { '7' }
    else if d == 8 { '8' }
    else { '9' }
}

pub open spec fn three_digits(n: nat) -> Seq<char> {
    seq![digit_char((n / 100) % 10), digit_char((n / 10) % 10), digit_char(n % 10)]
}

/// Seconds with three decimals, rounded to the nearest millisecond, of a span in nanoseconds.
pub open spec fn seconds_millis_text(nanos: nat) -> Seq<char> {
    let ms = (nanos + 500_000) / 1_000_000;
    decimal(ms / 1000) + seq!['.'] + three_digits(ms % 1000)
}

/// Seconds with one decimal, rounded to the nearest tenth, of a span in nanoseconds.
pub open spec fn seconds_tenths_text(nanos: nat) -> Seq<char> {
    let t = (nanos + 50_000_000) / 100_000_000;
    decimal(t / 10) + seq!['.', digit_char(t % 10)]
}

/// The decimal fraction of `f` thousandths without trailing zeros, with its point.
pub open spec fn fraction_text(f: nat) -> Seq<char> {
    if f == 0 {
        seq![]
    } else if f % 100 == 0 {
        seq!['.', digit_char(f / 100)]
    } else if f % 10 == 0 {
        seq!['.', digit_char(f / 100), digit_char((f / 10) % 10)]
    } else {
        seq!['.'] + three_digits(f)
    }
}

/// A whole number of milliseconds in seconds, in the shortest decimal form.
pub open spec fn seconds_text(ms: nat) -> Seq<char> {
    decimal(ms / 1000) + fraction_text(ms % 1000)
}

pub fn push_seconds_millis(out: &mut String, nanos: u64)
    ensures
        final(out)@ == old(out)@ + seconds_millis_text(nanos as nat),
{
    let ms: u64 = ((nanos as u128 + 500_000) / 1_000_000) as u64;
    push_decimal(out, ms / 1000);
    push_char(out, '.');
    let f = ms % 1000;
    push_char(out, digit((f / 100) % 10));
    push_char(out, digit((f / 10) % 10));
    push_char(out, digit(f % 10));
    assert(final(out)@ =~= old(out)@ + seconds_millis_text(nanos as nat));
}

pub fn push_seconds_tenths(out: &mut String, nanos: u64)
    ensures
        final(out)@ == old(out)@ + seconds_tenths_text(nanos as nat),
{
    let t: u64 = ((nanos as u128 + 50_000_000) / 100_000_000) as u64;
    push_decimal(out, t / 10);
    push_char(out, '.');
    push_char(out, digit(t % 10));
    assert(final(out)@ =~= old(out)@ + seconds_tenths_text(nanos as nat));
}

pub fn push_seconds(out: &mut String, ms: u64)
    ensures
        final(out)@ == old(out)@ + seconds_text(ms as nat),
{
    push_decimal(out, ms / 1000);
    let f = ms % 1000;
    let ghost mid = out@;
    if f == 0 {
    } else if f % 100 == 0 {
        push_char(out, '.');
        push_char(out, digit(f / 100));
    } else if f % 10 == 0 {
        push_char(out, '.');
        push_char(out, digit(f / 100));
        push_char(out, digit((f / 10) % 10));
    } else {
        push_char(out, '.');
        push_char(out, digit((f / 100) % 10));
        push_char(out, digit((f / 10) % 10));
        push_char(out, digit(f % 10));
    }
    assert(final(out)@ =~= old(out)@ + seconds_text(ms as nat));
}
} // verus!
