//! The report header's hardware description: the CPU model out of
//! `/proc/cpuinfo`, the memory size out of `/proc/meminfo` or `sysctl`, and
//! the one-line summary. Texts are handled as sequences of characters.

use crate::records::append;
use crate::report::{lit, utf8, HwSpec};
use vstd::prelude::*;
use vstd::string::StringSliceAdditionalSpecFns;

verus! {

// ---------------------------------------------------------------------------
// Character classes and searches
// ---------------------------------------------------------------------------

/// `char::is_whitespace`: the characters with the Unicode `White_Space` property.
pub open spec fn is_white_space(c: char) -> bool {
    ||| '\u{9}' <= c <= '\u{d}'
    ||| c == ' '
    ||| c == '\u{85}'
    ||| c == '\u{a0}'
    ||| c == '\u{1680}'
    ||| '\u{2000}' <= c <= '\u{200a}'
    ||| c == '\u{2028}'
    ||| c == '\u{2029}'
    ||| c == '\u{202f}'
    ||| c == '\u{205f}'
    ||| c == '\u{3000}'
}

/// Whether `c` has the Unicode `White_Space` property (`char::is_whitespace`).
pub fn is_whitespace(c: char) -> (b: bool)
    ensures
        b == is_white_space(c),
{
    ('\u{9}' <= c && c <= '\u{d}') || c == ' ' || c == '\u{85}' || c == '\u{a0}' || c == '\u{1680}'
        || ('\u{2000}' <= c && c <= '\u{200a}') || c == '\u{2028}' || c == '\u{2029}' || c == '\u{202f}'
        || c == '\u{205f}' || c == '\u{3000}'
}

/// Index of the first character of `s` satisfying `p`, or the length of `s`.
pub open spec fn first_index(s: Seq<char>, p: spec_fn(char) -> bool) -> nat
    decreases s.len(),
{
    if s.len() == 0 {
        0
    } else if p(s[0]) {
        0
    } else {
        1 + first_index(s.drop_first(), p)
    }
}

proof fn lemma_first_index(s: Seq<char>, p: spec_fn(char) -> bool, k: int)
    requires
        0 <= k <= s.len(),
        forall|j: int| 0 <= j < k ==> !p(#[trigger] s[j]),
        k == s.len() || p(s[k]),
    ensures
        first_index(s, p) == k,
    decreases k,
{
    if k > 0 {
        assert(!p(s[0]));
        let t = s.drop_first();
        assert forall|j: int| 0 <= j < k - 1 implies !p(#[trigger] t[j]) by {
            assert(t[j] == s[j + 1]);
        }
        if k < s.len() {
            assert(t[k - 1] == s[k]);
        }
        lemma_first_index(t, p, k - 1);
    }
}

/// The end of `s` once trailing characters satisfying `p` are dropped.
pub open spec fn end_without(s: Seq<char>, p: spec_fn(char) -> bool) -> nat
    decreases s.len(),
{
    if s.len() == 0 {
        0
    } else if !p(s.last()) {
        s.len()
    } else {
        end_without(s.drop_last(), p)
    }
}

proof fn lemma_end_without(s: Seq<char>, p: spec_fn(char) -> bool, k: int)
    requires
        0 <= k <= s.len(),
        forall|j: int| k <= j < s.len() ==> p(#[trigger] s[j]),
        k == 0 || !p(s[k - 1]),
    ensures
        end_without(s, p) == k,
    decreases s.len() - k,
{
    if k < s.len() {
        let t = s.drop_last();
        assert forall|j: int| k <= j < t.len() implies p(#[trigger] t[j]) by {
            assert(t[j] == s[j]);
        }
        if k > 0 {
            assert(t[k - 1] == s[k - 1]);
        }
        lemma_end_without(t, p, k);
    }
}

/// `str::trim`: `s` without leading and trailing white space.
pub open spec fn trim(s: Seq<char>) -> Seq<char> {
    let a = first_index(s, |c: char| !is_white_space(c));
    let t = s.skip(a as int);
    t.take(end_without(t, |c: char| is_white_space(c)) as int)
}

/// `str::trim` on a character sequence.
pub fn trim_chars(s: &[char]) -> (t: Vec<char>)
    ensures
        t@ == trim(s@),
{
    let len = s.len();
    let mut a: usize = 0;
    while a < len && is_whitespace(s[a])
        invariant
            a <= len,
            len == s@.len(),
            forall|j: int| 0 <= j < a ==> is_white_space(#[trigger] s@[j]),
        decreases len - a,
    {
        a = a + 1;
    }
    let mut b: usize = len;
    while b > a && is_whitespace(s[b - 1])
        invariant
            a <= b <= len,
            len == s@.len(),
            forall|j: int| b <= j < len ==> is_white_space(#[trigger] s@[j]),
        decreases b - a,
    {
        b = b - 1;
    }
    let mut t: Vec<char> = Vec::new();
    let mut i: usize = a;
    while i < b
        invariant
            a <= i <= b <= len,
            len == s@.len(),
            t@ == s@.subrange(a as int, i as int),
        decreases b - i,
    {
        t.push(s[i]);
        assert(s@.subrange(a as int, i + 1) == s@.subrange(a as int, i as int).push(s@[i as int]));
        i = i + 1;
    }
    proof {
        let p = |c: char| !is_white_space(c);
        let q = |c: char| is_white_space(c);
        assert forall|j: int| 0 <= j < a implies !p(#[trigger] s@[j]) by {}
        lemma_first_index(s@, p, a as int);
        let u = s@.skip(a as int);
        assert forall|j: int| b - a <= j < u.len() implies q(#[trigger] u[j]) by {
            assert(u[j] == s@[a + j]);
        }
        if b > a {
            assert(u[b - a - 1] == s@[b - 1]);
        }
        lemma_end_without(u, q, b - a);
        assert(t@ =~= u.take(b - a));
    }
    t
}

// ---------------------------------------------------------------------------
// Lines
// ---------------------------------------------------------------------------

/// A line without the `'\r'` of a `"\r\n"` ending.
pub open spec fn strip_cr(l: Seq<char>) -> Seq<char> {
    if l.len() > 0 && l.last() == '\r' {
        l.drop_last()
    } else {
        l
    }
}

/// `str::lines`: the text split at each `'\n'`, a `'\r'` before the `'\n'`
/// dropped; a final line without `'\n'` is kept as it is, and a final `'\n'`
/// starts no empty line.
pub open spec fn lines(s: Seq<char>) -> Seq<Seq<char>>
    decreases s.len(),
{
    if s.len() == 0 {
        seq![]
    } else {
        let i = first_index(s, |c: char| c == '\n');
        if i < s.len() {
            seq![strip_cr(s.take(i as int))] + lines(s.skip(i as int + 1))
        } else {
            seq![s]
        }
    }
}

/// The characters of each line.
pub open spec fn lines_view(ls: Seq<Vec<char>>) -> Seq<Seq<char>> {
    ls.map_values(|l: Vec<char>| l@)
}

fn copy_range(s: &[char], a: usize, b: usize) -> (t: Vec<char>)
    requires
        a <= b <= s@.len(),
    ensures
        t@ == s@.subrange(a as int, b as int),
{
    let mut t: Vec<char> = Vec::new();
    let mut i: usize = a;
    while i < b
        invariant
            a <= i <= b <= s@.len(),
            t@ == s@.subrange(a as int, i as int),
        decreases b - i,
    {
        t.push(s[i]);
        assert(s@.subrange(a as int, i + 1) == s@.subrange(a as int, i as int).push(s@[i as int]));
        i = i + 1;
    }
    t
}

/// `str::lines`, each line as a vector of characters.
pub fn split_lines(text: &[char]) -> (ls: Vec<Vec<char>>)
    ensures
        lines_view(ls@) == lines(text@),
{
    let len = text.len();
    let mut ls: Vec<Vec<char>> = Vec::new();
    let mut start: usize = 0;
    let mut i: usize = 0;
    let ghost nl = |c: char| c == '\n';
    assert(text@.skip(0) =~= text@);
    assert(lines_view(ls@) =~= Seq::<Seq<char>>::empty());
    assert(lines_view(ls@) + lines(text@) =~= lines(text@));
    while i < len
        invariant
            start <= i <= len,
            len == text@.len(),
            nl == (|c: char| c == '\n'),
            forall|j: int| start <= j < i ==> text@[j] != '\n',
            lines_view(ls@) + lines(text@.skip(start as int)) == lines(text@),
        decreases len - i,
    {
        if text[i] == '\n' {
            let mut end = i;
            if end > start && text[end - 1] == '\r' {
                end = end - 1;
            }
            let line = copy_range(text, start, end);
            proof {
                let s = text@.skip(start as int);
                assert forall|j: int| 0 <= j < i - start implies !nl(#[trigger] s[j]) by {
                    assert(s[j] == text@[start + j]);
                }
                assert(s[i - start] == text@[i as int]);
                lemma_first_index(s, nl, i - start);
                assert(s.take(i - start) =~= text@.subrange(start as int, i as int));
                assert(line@ == strip_cr(s.take(i - start))) by {
                    if i > start && text@[i - 1] == '\r' {
                        assert(line@ =~= s.take(i - start).drop_last());
                    } else {
                        assert(line@ =~= s.take(i - start));
                    }
                }
                assert(s.skip(i - start + 1) =~= text@.skip(i + 1));
                assert(lines(s) == seq![strip_cr(s.take(i - start))] + lines(text@.skip(i + 1)));
            }
            let ghost before = ls@;
            ls.push(line);
            proof {
                assert(lines_view(ls@) =~= lines_view(before).push(line@));
                assert(lines_view(before).push(line@) + lines(text@.skip(i + 1)) =~= lines_view(before) + (
                seq![line@] + lines(text@.skip(i + 1))));
            }
            start = i + 1;
        }
        i = i + 1;
    }
    if start < len {
        let line = copy_range(text, start, len);
        proof {
            let s = text@.skip(start as int);
            assert forall|j: int| 0 <= j < s.len() implies !nl(#[trigger] s[j]) by {
                assert(s[j] == text@[start + j]);
            }
            lemma_first_index(s, nl, s.len() as int);
            assert(line@ =~= s);
        }
        let ghost before = ls@;
        ls.push(line);
        proof {
            assert(lines_view(ls@) =~= lines_view(before).push(line@));
            assert(lines_view(before) + lines(text@.skip(start as int)) =~= lines_view(ls@));
        }
    } else {
        assert(text@.skip(start as int) =~= Seq::<char>::empty());
        assert(lines_view(ls@) + lines(text@.skip(start as int)) =~= lines_view(ls@));
    }
    ls
}

// ---------------------------------------------------------------------------
// Numbers
// ---------------------------------------------------------------------------

/// Whether every character is an ASCII digit.
pub open spec fn all_digits(s: Seq<char>) -> bool {
    forall|i: int| 0 <= i < s.len() ==> '0' <= #[trigger] s[i] <= '9'
}

/// The value of a string of decimal digits.
pub open spec fn digits_value(s: Seq<char>) -> nat
    decreases s.len(),
{
    if s.len() == 0 {
        0
    } else {
        digits_value(s.drop_last()) * 10 + (s.last() as nat - 48) as nat
    }
}

/// `u64::from_str`: an optional `'+'`, then one or more decimal digits whose
/// value fits in 64 bits.
pub open spec fn parse_u64_spec(s: Seq<char>) -> Option<u64> {
    let d = if s.len() > 0 && s[0] == '+' {
        s.drop_first()
    } else {
        s
    };
    if d.len() > 0 && all_digits(d) && digits_value(d) <= u64::MAX {
        Some(digits_value(d) as u64)
    } else {
        None
    }
}

proof fn lemma_digits_value_grows(s: Seq<char>, k: int)
    requires
        0 <= k <= s.len(),
        all_digits(s),
    ensures
        digits_value(s.take(k)) <= digits_value(s),
    decreases s.len() - k,
{
    if k < s.len() {
        let t = s.drop_last();
        assert(s.take(k) =~= t.take(k));
        assert forall|i: int| 0 <= i < t.len() implies '0' <= #[trigger] t[i] <= '9' by {
            assert(t[i] == s[i]);
        }
        lemma_digits_value_grows(t, k);
        assert('0' <= s[s.len() - 1] <= '9');
        assert(digits_value(s) == digits_value(t) * 10 + (s.last() as nat - 48) as nat);
        assert(digits_value(t) <= digits_value(t) * 10) by (nonlinear_arith);
    } else {
        assert(s.take(k) =~= s);
    }
}

/// `u64::from_str` on a character sequence.
pub fn parse_u64(s: &[char]) -> (r: Option<u64>)
    ensures
        r == parse_u64_spec(s@),
{
    let len = s.len();
    let start: usize = if len > 0 && s[0] == '+' {
        1
    } else {
        0
    };
    let ghost d = if s@.len() > 0 && s@[0] == '+' {
        s@.drop_first()
    } else {
        s@
    };
    assert(d =~= s@.skip(start as int));
    if start == len {
        return None;
    }
    let mut v: u64 = 0;
    let mut i: usize = start;
    while i < len
        invariant
            start <= i <= len,
            len == s@.len(),
            d == s@.skip(start as int),
            d == (if s@.len() > 0 && s@[0] == '+' { s@.drop_first() } else { s@ }),
            all_digits(d.take(i - start)),
            v == digits_value(d.take(i - start)),
        decreases len - i,
    {
        let c = s[i];
        assert(d.take(i - start + 1).drop_last() =~= d.take(i - start));
        assert(d[i - start] == c);
        if !('0' <= c && c <= '9') {
            assert(!all_digits(d)) by {
                assert(d[i - start] == c);
                assert(!('0' <= d[i - start] <= '9'));
            }
            assert(parse_u64_spec(s@) is None);
            return None;
        }
        let digit = (c as u32 - 48) as u64;
        assert(digit == (c as nat - 48) as nat);
        match v.checked_mul(10) {
            None => {
                proof {
                    assert forall|j: int| 0 <= j < i - start + 1 implies '0' <= #[trigger] d.take(i - start + 1)[j] <= '9' by {
                        if j < i - start {
                            assert(d.take(i - start + 1)[j] == d.take(i - start)[j]);
                        }
                    }
                    if all_digits(d) {
                        lemma_digits_value_grows(d, i - start + 1);
                    }
                }
                return None;
            },
            Some(w) => match w.checked_add(digit) {
                None => {
                    proof {
                        assert forall|j: int| 0 <= j < i - start + 1 implies '0' <= #[trigger] d.take(i - start + 1)[j] <= '9' by {
                            if j < i - start {
                                assert(d.take(i - start + 1)[j] == d.take(i - start)[j]);
                            }
                        }
                        if all_digits(d) {
                            lemma_digits_value_grows(d, i - start + 1);
                        }
                    }
                    return None;
                },
                Some(x) => {
                    v = x;
                },
            },
        }
        assert forall|j: int| 0 <= j < i - start + 1 implies '0' <= #[trigger] d.take(i - start + 1)[j] <= '9' by {
            if j < i - start {
                assert(d.take(i - start + 1)[j] == d.take(i - start)[j]);
            }
        }
        i = i + 1;
    }
    assert(d.take(len - start) =~= d);
    Some(v)
}

// ---------------------------------------------------------------------------
// /proc/cpuinfo, /proc/meminfo, sysctl
// ---------------------------------------------------------------------------

/// The key of the CPU model line of `/proc/cpuinfo`.
pub open spec fn model_name_key() -> Seq<char> {
    seq!['m', 'o', 'd', 'e', 'l', ' ', 'n', 'a', 'm', 'e']
}

/// The key of the total-memory line of `/proc/meminfo`.
pub open spec fn mem_total_key() -> Seq<char> {
    seq!['M', 'e', 'm', 'T', 'o', 't', 'a', 'l', ':']
}

/// `rest.split(':').nth(1)`: the text between the first `':'` and the next
/// one (or the end), if there is a `':'`.
pub open spec fn second_field(rest: Seq<char>) -> Option<Seq<char>> {
    let colon = |c: char| c == ':';
    let i = first_index(rest, colon);
    if i < rest.len() {
        let after = rest.skip(i as int + 1);
        Some(after.take(first_index(after, colon) as int))
    } else {
        None
    }
}

/// `rest.split_whitespace().next()`: the first run of non-white-space characters.
pub open spec fn first_word(rest: Seq<char>) -> Option<Seq<char>> {
    let t = rest.skip(first_index(rest, |c: char| !is_white_space(c)) as int);
    if t.len() == 0 {
        None
    } else {
        Some(t.take(first_index(t, |c: char| is_white_space(c)) as int))
    }
}

/// Whether `l` starts with `key`.
pub open spec fn has_prefix(l: Seq<char>, key: Seq<char>) -> bool {
    l.len() >= key.len() && l.take(key.len() as int) == key
}

/// The CPU model named by the first `model name` line (among `ls`) that has
/// a `':'` after the key: the field after that `':'`, trimmed.
pub open spec fn cpu_model_in(ls: Seq<Seq<char>>) -> Option<Seq<char>>
    decreases ls.len(),
{
    if ls.len() == 0 {
        None
    } else if has_prefix(ls[0], model_name_key()) && second_field(ls[0].skip(10)) is Some {
        Some(trim(second_field(ls[0].skip(10)).unwrap()))
    } else {
        cpu_model_in(ls.drop_first())
    }
}

/// The memory size, in KiB, of the first `MemTotal:` line (among `ls`) whose
/// first word after the key is a number.
pub open spec fn mem_total_in(ls: Seq<Seq<char>>) -> Option<u64>
    decreases ls.len(),
{
    if ls.len() == 0 {
        None
    } else if has_prefix(ls[0], mem_total_key()) && first_word(ls[0].skip(9)) is Some && parse_u64_spec(
        first_word(ls[0].skip(9)).unwrap(),
    ) is Some {
        parse_u64_spec(first_word(ls[0].skip(9)).unwrap())
    } else {
        mem_total_in(ls.drop_first())
    }
}

fn starts_with(l: &[char], key: &[char]) -> (b: bool)
    ensures
        b == has_prefix(l@, key@),
{
    if l.len() < key.len() {
        return false;
    }
    let mut i: usize = 0;
    while i < key.len()
        invariant
            i <= key@.len() <= l@.len(),
            forall|j: int| 0 <= j < i ==> l@[j] == key@[j],
        decreases key@.len() - i,
    {
        if l[i] != key[i] {
            assert(l@.take(key@.len() as int)[i as int] != key@[i as int]);
            return false;
        }
        i = i + 1;
    }
    assert(l@.take(key@.len() as int) =~= key@);
    true
}

/// Index of the first `c` in `s[from..]`, or the length of `s`.
fn find_char(s: &[char], from: usize, c: char) -> (i: usize)
    requires
        from <= s@.len(),
    ensures
        i == from + first_index(s@.skip(from as int), |x: char| x == c),
        i <= s@.len(),
{
    let len = s.len();
    let mut i = from;
    while i < len && s[i] != c
        invariant
            from <= i <= len,
            len == s@.len(),
            forall|j: int| from <= j < i ==> s@[j] != c,
        decreases len - i,
    {
        i = i + 1;
    }
    proof {
        let t = s@.skip(from as int);
        let p = |x: char| x == c;
        assert forall|j: int| 0 <= j < i - from implies !p(#[trigger] t[j]) by {
            assert(t[j] == s@[from + j]);
        }
        if i < len {
            assert(t[i - from] == s@[i as int]);
        }
        lemma_first_index(t, p, i - from);
    }
    i
}

fn model_name_key_exec() -> (k: Vec<char>)
    ensures
        k@ == model_name_key(),
{
    let k = vec!['m', 'o', 'd', 'e', 'l', ' ', 'n', 'a', 'm', 'e'];
    assert(k@ =~= model_name_key());
    k
}

fn mem_total_key_exec() -> (k: Vec<char>)
    ensures
        k@ == mem_total_key(),
{
    let k = vec!['M', 'e', 'm', 'T', 'o', 't', 'a', 'l', ':'];
    assert(k@ =~= mem_total_key());
    k
}

/// The field after the first `':'` of `l[from..]`, up to the next `':'`.
fn second_field_of(l: &[char], from: usize) -> (r: Option<Vec<char>>)
    requires
        from <= l@.len(),
    ensures
        r matches Some(v) ==> second_field(l@.skip(from as int)) == Some(v@),
        r is None ==> second_field(l@.skip(from as int)) is None,
{
    let i = find_char(l, from, ':');
    if i == l.len() {
        return None;
    }
    let j = find_char(l, i + 1, ':');
    let v = copy_range(l, i + 1, j);
    proof {
        let rest = l@.skip(from as int);
        let colon = |c: char| c == ':';
        assert(first_index(rest, colon) == i - from);
        let after = rest.skip(i - from + 1);
        assert(after =~= l@.skip(i + 1));
        assert(v@ =~= after.take(j - i - 1));
    }
    Some(v)
}

/// The CPU model from the text of `/proc/cpuinfo`.
pub fn cpu_model_from_cpuinfo(text: &[char]) -> (r: Option<Vec<char>>)
    ensures
        r matches Some(v) ==> cpu_model_in(lines(text@)) == Some(v@),
        r is None ==> cpu_model_in(lines(text@)) is None,
{
    let ls = split_lines(text);
    let key = model_name_key_exec();
    assert(lines_view(ls@).skip(0) =~= lines_view(ls@));
    let mut k: usize = 0;
    while k < ls.len()
        invariant
            k <= ls@.len(),
            key@ == model_name_key(),
            cpu_model_in(lines(text@)) == cpu_model_in(lines_view(ls@).skip(k as int)),
        decreases ls@.len() - k,
    {
        let l = &ls[k];
        let ghost rest = lines_view(ls@).skip(k as int);
        assert(rest[0] == l@);
        assert(rest.drop_first() =~= lines_view(ls@).skip(k + 1));
        if starts_with(l.as_slice(), key.as_slice()) {
            match second_field_of(l.as_slice(), 10) {
                Some(field) => {
                    let t = trim_chars(field.as_slice());
                    return Some(t);
                },
                None => {},
            }
        }
        k = k + 1;
    }
    assert(lines_view(ls@).skip(k as int) =~= Seq::<Seq<char>>::empty());
    None
}

/// The first word of `l[from..]`.
fn first_word_of(l: &[char], from: usize) -> (r: Option<Vec<char>>)
    requires
        from <= l@.len(),
    ensures
        r matches Some(v) ==> first_word(l@.skip(from as int)) == Some(v@),
        r is None ==> first_word(l@.skip(from as int)) is None,
{
    let len = l.len();
    let mut a = from;
    while a < len && is_whitespace(l[a])
        invariant
            from <= a <= len,
            len == l@.len(),
            forall|j: int| from <= j < a ==> is_white_space(#[trigger] l@[j]),
        decreases len - a,
    {
        a = a + 1;
    }
    let ghost rest = l@.skip(from as int);
    proof {
        let p = |c: char| !is_white_space(c);
        assert forall|j: int| 0 <= j < a - from implies !p(#[trigger] rest[j]) by {
            assert(rest[j] == l@[from + j]);
        }
        if a < len {
            assert(rest[a - from] == l@[a as int]);
        }
        lemma_first_index(rest, p, a - from);
        assert(rest.skip(a - from) =~= l@.skip(a as int));
    }
    if a == len {
        return None;
    }
    let mut b = a;
    while b < len && !is_whitespace(l[b])
        invariant
            a <= b <= len,
            len == l@.len(),
            forall|j: int| a <= j < b ==> !is_white_space(#[trigger] l@[j]),
        decreases len - b,
    {
        b = b + 1;
    }
    let v = copy_range(l, a, b);
    proof {
        let t = l@.skip(a as int);
        let q = |c: char| is_white_space(c);
        assert forall|j: int| 0 <= j < b - a implies !q(#[trigger] t[j]) by {
            assert(t[j] == l@[a + j]);
        }
        if b < len {
            assert(t[b - a] == l@[b as int]);
        }
        lemma_first_index(t, q, b - a);
        assert(v@ =~= t.take(b - a));
    }
    Some(v)
}

/// The memory size in KiB from the text of `/proc/meminfo`.
pub fn mem_total_from_meminfo(text: &[char]) -> (r: Option<u64>)
    ensures
        r == mem_total_in(lines(text@)),
{
    let ls = split_lines(text);
    let key = mem_total_key_exec();
    assert(lines_view(ls@).skip(0) =~= lines_view(ls@));
    let mut k: usize = 0;
    while k < ls.len()
        invariant
            k <= ls@.len(),
            key@ == mem_total_key(),
            mem_total_in(lines(text@)) == mem_total_in(lines_view(ls@).skip(k as int)),
        decreases ls@.len() - k,
    {
        let l = &ls[k];
        let ghost rest = lines_view(ls@).skip(k as int);
        assert(rest[0] == l@);
        assert(rest.drop_first() =~= lines_view(ls@).skip(k + 1));
        if starts_with(l.as_slice(), key.as_slice()) {
            match first_word_of(l.as_slice(), 9) {
                Some(word) => match parse_u64(word.as_slice()) {
                    Some(v) => {
                        return Some(v);
                    },
                    None => {},
                },
                None => {},
            }
        }
        k = k + 1;
    }
    assert(lines_view(ls@).skip(k as int) =~= Seq::<Seq<char>>::empty());
    None
}

/// The memory size in bytes from the output of `sysctl -n hw.memsize`:
/// the output, trimmed, as a number.
pub fn memsize_from_sysctl(out: &[char]) -> (r: Option<u64>)
    ensures
        r == parse_u64_spec(trim(out@)),
{
    let t = trim_chars(out);
    parse_u64(t.as_slice())
}

// ---------------------------------------------------------------------------
// Choosing a source
// ---------------------------------------------------------------------------

/// A memory size as the host found it: a count of bytes (`sysctl -n
/// hw.memsize`) or of KiB (`/proc/meminfo`).
#[derive(PartialEq, Eq, Structural, Clone, Copy, Debug)]
pub enum MemorySize {
    Bytes(u64),
    KiB(u64),
}

/// The memory size the report shows: the `sysctl` figure when the command
/// ran (`Some` output) and its trimmed output is a number; otherwise the
/// `MemTotal:` figure of `/proc/meminfo` when the file was read and has one;
/// otherwise none.
pub open spec fn memory_size_spec(sysctl: Option<Seq<char>>, meminfo: Option<Seq<char>>) -> Option<MemorySize> {
    let from_sysctl = match sysctl {
        Some(out) => parse_u64_spec(trim(out)),
        None => None,
    };
    match from_sysctl {
        Some(b) => Some(MemorySize::Bytes(b)),
        None => match meminfo {
            Some(text) => match mem_total_in(lines(text)) {
                Some(kb) => Some(MemorySize::KiB(kb)),
                None => None,
            },
            None => None,
        },
    }
}

/// The characters of a text that may not have been had.
pub open spec fn text_of(t: Option<&[char]>) -> Option<Seq<char>> {
    match t {
        Some(s) => Some(s@),
        None => None,
    }
}

/// The characters of `s`, in a vector of their own.
fn copy_chars(s: &[char]) -> (v: Vec<char>)
    ensures
        v@ == s@,
{
    let mut v: Vec<char> = Vec::new();
    let mut i: usize = 0;
    while i < s.len()
        invariant
            i <= s@.len(),
            v@ == s@.take(i as int),
        decreases s@.len() - i,
    {
        v.push(s[i]);
        assert(s@.take(i + 1) == s@.take(i as int).push(s@[i as int]));
        i = i + 1;
    }
    assert(s@.take(s@.len() as int) == s@);
    v
}

/// Picks the memory size from what the host could read: the output of
/// `sysctl -n hw.memsize` and the text of `/proc/meminfo`, each `None` where
/// it could not be had.
pub fn memory_size(sysctl: Option<&[char]>, meminfo: Option<&[char]>) -> (r: Option<MemorySize>)
    ensures
        r == memory_size_spec(text_of(sysctl), text_of(meminfo)),
{
    let from_sysctl = match sysctl {
        Some(out) => memsize_from_sysctl(out),
        None => None,
    };
    match from_sysctl {
        Some(b) => Some(MemorySize::Bytes(b)),
        None => match meminfo {
            Some(text) => match mem_total_from_meminfo(text) {
                Some(kb) => Some(MemorySize::KiB(kb)),
                None => None,
            },
            None => None,
        },
    }
}

/// The CPU model the report shows: the output of `sysctl -n
/// machdep.cpu.brand_string` when the command ran; otherwise the model named
/// in `/proc/cpuinfo` when the file was read and names one; otherwise none.
pub open spec fn cpu_model_spec(sysctl: Option<Seq<char>>, cpuinfo: Option<Seq<char>>) -> Option<Seq<char>> {
    match sysctl {
        Some(out) => Some(out),
        None => match cpuinfo {
            Some(text) => cpu_model_in(lines(text)),
            None => None,
        },
    }
}

/// Picks the CPU model from what the host could read.
pub fn cpu_model(sysctl: Option<&[char]>, cpuinfo: Option<&[char]>) -> (r: Option<Vec<char>>)
    ensures
        r matches Some(v) ==> cpu_model_spec(text_of(sysctl), text_of(cpuinfo)) == Some(v@),
        r is None ==> cpu_model_spec(text_of(sysctl), text_of(cpuinfo)) is None,
{
    match sysctl {
        Some(out) => {
            let v = copy_chars(out);
            Some(v)
        },
        None => match cpuinfo {
            Some(text) => cpu_model_from_cpuinfo(text),
            None => None,
        },
    }
}

// ---------------------------------------------------------------------------
// Summary line
// ---------------------------------------------------------------------------

impl HwSpec {
    /// `cpu | ram | os`.
    pub open spec fn one_line_spec(self) -> Seq<u8> {
        utf8(self.cpu@) + lit(" | ") + utf8(self.ram@) + lit(" | ") + utf8(self.os@)
    }

    /// The one-line summary printed before the run: `cpu | ram | os`.
    pub fn one_line(&self) -> (s: Vec<u8>)
        ensures
            s@ == self.one_line_spec(),
    {
        let mut s: Vec<u8> = Vec::new();
        let sep: &str = " | ";
        let cpu: &str = self.cpu.as_str();
        let ram: &str = self.ram.as_str();
        let os: &str = self.os.as_str();
        append(&mut s, cpu.as_bytes());
        append(&mut s, sep.as_bytes());
        append(&mut s, ram.as_bytes());
        append(&mut s, sep.as_bytes());
        append(&mut s, os.as_bytes());
        s
    }
}

} // verus!
