use sha2::{Digest, Sha256};
use vstd::prelude::*;

verus! {

/// The characters of a string, in order.
pub fn chars_of(s: &str) -> (r: Vec<char>)
    ensures
        r@ == s@,
{
    let mut v: Vec<char> = Vec::new();
    for c in it: s.chars()
        invariant
            v@ == it.seq().take(it.index()),
    {
        v.push(c);
    }
    v
}

/// `String::push`: appends one character.
#[verifier::external_body]
pub(crate) fn push_char(s: &mut String, c: char)
    ensures
        final(s)@ == old(s)@.push(c),
{
    s.push(c);
}

/// A string holding exactly the given characters.
pub fn string_of(v: &[char]) -> (r: String)
    ensures
        r@ == v@,
{
    let mut s = String::new();
    let mut i: usize = 0;
    while i < v.len()
        invariant
            i <= v@.len(),
            s@ == v@.take(i as int),
        decreases v@.len() - i,
    {
        push_char(&mut s, v[i]);
        i = i + 1;
        assert(s@ == v@.take(i as int));
    }
    assert(v@.take(v@.len() as int) == v@);
    s
}

pub uninterp spec fn sha256_hex(bytes: Seq<u8>) -> Seq<char>;

pub open spec fn is_lower_hex_digit(c: char) -> bool {
    ('0' <= c && c <= '9') || ('a' <= c && c <= 'f')
}

/// `sha2::Sha256::digest`, printed with `{:x}`: the SHA-256 digest of the bytes
/// as 64 lowercase hexadecimal digits. The digest itself is named, not described.
#[verifier::external_body]
pub(crate) fn sha256_hex_of(bytes: &[u8]) -> (r: String)
    ensures
        r@ == sha256_hex(bytes@),
        r@.len() == 64,
        forall|i: int| 0 <= i < 64 ==> is_lower_hex_digit(#[trigger] r@[i]),
{
    format!("{:x}", Sha256::digest(bytes))
}

} // verus!

verus! {

// ----- character classes -----

pub open spec fn is_ascii_upper(c: char) -> bool {
    'A' <= c && c <= 'Z'
}

pub open spec fn is_ascii_alnum(c: char) -> bool {
    ('A' <= c && c <= 'Z') || ('a' <= c && c <= 'z') || ('0' <= c && c <= '9')
}

pub open spec fn lower_char(c: char) -> char {
    if is_ascii_upper(c) {
        ((c as u32) + 32) as char
    } else {
        c
    }
}

pub open spec fn lower(s: Seq<char>) -> Seq<char> {
    s.map_values(|c: char| lower_char(c))
}

pub fn lower_char_exec(c: char) -> (r: char)
    ensures
        r == lower_char(c),
{
    if 'A' <= c && c <= 'Z' {
        let b: u8 = (c as u8) + 32;
        b as char
    } else {
        c
    }
}

} // verus!

verus! {

pub fn lower_all(s: &[char]) -> (r: Vec<char>)
    ensures
        r@ == lower(s@),
{
    let mut r: Vec<char> = Vec::new();
    let mut i: usize = 0;
    while i < s.len()
        invariant
            i <= s@.len(),
            r@ == lower(s@.take(i as int)),
        decreases s@.len() - i,
    {
        r.push(lower_char_exec(s[i]));
        i = i + 1;
        assert(lower(s@.take(i as int)) == lower(s@.take(i - 1)).push(lower_char(s@[i - 1])));
    }
    assert(s@.take(s@.len() as int) == s@);
    r
}

/// Whether two character sequences are equal.
pub fn chars_eq(a: &[char], b: &[char]) -> (r: bool)
    ensures
        r == (a@ == b@),
{
    if a.len() != b.len() {
        return false;
    }
    let mut i: usize = 0;
    while i < a.len()
        invariant
            i <= a@.len(),
            a@.len() == b@.len(),
            forall|j: int| 0 <= j < i ==> a@[j] == b@[j],
        decreases a@.len() - i,
    {
        if a[i] != b[i] {
            return false;
        }
        i = i + 1;
    }
    assert(a@ =~= b@);
    true
}

pub open spec fn starts_with(s: Seq<char>, p: Seq<char>) -> bool {
    p.len() <= s.len() && s.take(p.len() as int) == p
}

pub open spec fn ends_with(s: Seq<char>, p: Seq<char>) -> bool {
    p.len() <= s.len() && s.skip(s.len() - p.len()) == p
}

pub open spec fn occurs_at(s: Seq<char>, p: Seq<char>, i: int) -> bool {
    0 <= i && i + p.len() <= s.len() && s.subrange(i, i + p.len()) == p
}

pub open spec fn contains(s: Seq<char>, p: Seq<char>) -> bool {
    exists|i: int| occurs_at(s, p, i)
}

/// Whether `p` occurs in `s` starting at `i`.
pub fn occurs_at_exec(s: &[char], p: &[char], i: usize) -> (r: bool)
    ensures
        r == occurs_at(s@, p@, i as int),
{
    if i > s.len() || p.len() > s.len() - i {
        return false;
    }
    let mut k: usize = 0;
    while k < p.len()
        invariant
            i + p@.len() <= s@.len(),
            s@.len() <= usize::MAX,
            k <= p@.len(),
            forall|j: int| 0 <= j < k ==> s@[i + j] == p@[j],
        decreases p@.len() - k,
    {
        if s[i + k] != p[k] {
            assert(s@.subrange(i as int, i + p@.len())[k as int] != p@[k as int]);
            return false;
        }
        k = k + 1;
    }
    assert(s@.subrange(i as int, i + p@.len()) =~= p@);
    true
}

pub fn starts_with_exec(s: &[char], p: &[char]) -> (r: bool)
    ensures
        r == starts_with(s@, p@),
{
    let r = occurs_at_exec(s, p, 0);
    assert(s@.subrange(0, p@.len() as int) == s@.take(p@.len() as int));
    r
}

pub fn ends_with_exec(s: &[char], p: &[char]) -> (r: bool)
    ensures
        r == ends_with(s@, p@),
{
    if p.len() > s.len() {
        return false;
    }
    let r = occurs_at_exec(s, p, s.len() - p.len());
    assert(s@.subrange(s@.len() - p@.len(), s@.len() as int) == s@.skip(s@.len() - p@.len()));
    r
}

pub fn contains_exec(s: &[char], p: &[char]) -> (r: bool)
    ensures
        r == contains(s@, p@),
{
    if p.len() > s.len() {
        assert forall|i: int| !occurs_at(s@, p@, i) by {}
        return false;
    }
    let last = s.len() - p.len();
    let mut i: usize = 0;
    loop
        invariant
            p@.len() <= s@.len(),
            last == s@.len() - p@.len(),
            i <= last,
            forall|j: int| 0 <= j < i ==> !occurs_at(s@, p@, j),
        ensures
            forall|j: int| 0 <= j <= last ==> !occurs_at(s@, p@, j),
        decreases last - i,
    {
        if occurs_at_exec(s, p, i) {
            return true;
        }
        if i == last {
            break;
        }
        i = i + 1;
    }
    assert forall|j: int| !occurs_at(s@, p@, j) by {
        if 0 <= j <= last {
        }
    }
    false
}

} // verus!

verus! {

/// The finished segments and the segment in progress after reading the first `n` characters.
pub open spec fn split_acc(s: Seq<char>, sep: char, n: int) -> (Seq<Seq<char>>, Seq<char>)
    decreases n,
{
    if n <= 0 {
        (Seq::empty(), Seq::empty())
    } else {
        let (done, cur) = split_acc(s, sep, n - 1);
        if s[n - 1] == sep {
            (done.push(cur), Seq::empty())
        } else {
            (done, cur.push(s[n - 1]))
        }
    }
}

/// The pieces of `s` between occurrences of `sep`, as `str::split` yields them.
pub open spec fn split_on(s: Seq<char>, sep: char) -> Seq<Seq<char>> {
    let (done, cur) = split_acc(s, sep, s.len() as int);
    done.push(cur)
}

pub fn split_on_exec(s: &[char], sep: char) -> (r: Vec<Vec<char>>)
    ensures
        r@.len() == split_on(s@, sep).len(),
        forall|k: int| 0 <= k < r@.len() ==> #[trigger] r@[k]@ == split_on(s@, sep)[k],
{
    let mut done: Vec<Vec<char>> = Vec::new();
    let mut cur: Vec<char> = Vec::new();
    let mut i: usize = 0;
    while i < s.len()
        invariant
            i <= s@.len(),
            done@.len() == split_acc(s@, sep, i as int).0.len(),
            forall|k: int| 0 <= k < done@.len() ==> #[trigger] done@[k]@ == split_acc(s@, sep, i as int).0[k],
            cur@ == split_acc(s@, sep, i as int).1,
        decreases s@.len() - i,
    {
        if s[i] == sep {
            done.push(cur);
            cur = Vec::new();
        } else {
            cur.push(s[i]);
        }
        i = i + 1;
    }
    done.push(cur);
    done
}

} // verus!

verus! {

/// Unicode `Alphabetic` or `Numeric`, as `char::is_alphanumeric` decides it.
pub uninterp spec fn unicode_alphanumeric(c: char) -> bool;

/// Unicode `White_Space`, as `char::is_whitespace` decides it.
pub uninterp spec fn unicode_whitespace(c: char) -> bool;

/// `char::is_alphanumeric`. For ASCII characters it is true exactly of letters and digits;
/// beyond ASCII the Unicode tables decide, which the name stands for.
#[verifier::external_body]
pub(crate) fn is_alphanumeric(c: char) -> (r: bool)
    ensures
        r == unicode_alphanumeric(c),
        (c as u32) < 128 ==> (r == is_ascii_alnum(c)),
{
    c.is_alphanumeric()
}

pub open spec fn is_ascii_whitespace_char(c: char) -> bool {
    c == ' ' || ('\t' <= c && c <= '\r')
}

/// `char::is_whitespace`. For ASCII characters it is true exactly of space and the
/// characters from tab to carriage return; beyond ASCII the Unicode tables decide.
#[verifier::external_body]
pub(crate) fn is_whitespace(c: char) -> (r: bool)
    ensures
        r == unicode_whitespace(c),
        (c as u32) < 128 ==> (r == is_ascii_whitespace_char(c)),
{
    c.is_whitespace()
}

pub open spec fn string_views(v: Seq<String>) -> Seq<Seq<char>> {
    v.map_values(|s: String| s@)
}

} // verus!

verus! {

/// The parts with `sep` between each two of them.
pub open spec fn join(parts: Seq<Seq<char>>, sep: Seq<char>) -> Seq<char>
    decreases parts.len(),
{
    if parts.len() == 0 {
        Seq::empty()
    } else if parts.len() == 1 {
        parts[0]
    } else {
        join(parts.drop_last(), sep) + sep + parts.last()
    }
}

pub fn append_chars(s: &mut String, v: &[char])
    ensures
        final(s)@ == old(s)@ + v@,
{
    let mut i: usize = 0;
    while i < v.len()
        invariant
            i <= v@.len(),
            s@ == old(s)@ + v@.take(i as int),
        decreases v@.len() - i,
    {
        push_char(s, v[i]);
        i = i + 1;
        assert(old(s)@ + v@.take(i as int) =~= (old(s)@ + v@.take(i - 1)).push(v@[i - 1]));
    }
    assert(v@.take(v@.len() as int) == v@);
}

/// Joins the strings with `sep` between each two of them.
pub fn join_strings(parts: &Vec<String>, sep: &[char]) -> (r: String)
    ensures
        r@ == join(string_views(parts@), sep@),
{
    let mut r = String::new();
    let mut i: usize = 0;
    while i < parts.len()
        invariant
            i <= parts@.len(),
            r@ == join(string_views(parts@).take(i as int), sep@),
        decreases parts@.len() - i,
    {
        let ghost prev = string_views(parts@).take(i as int);
        let p = chars_of(parts[i].as_str());
        if i > 0 {
            append_chars(&mut r, sep);
        }
        append_chars(&mut r, p.as_slice());
        i = i + 1;
        proof {
            let cur = string_views(parts@).take(i as int);
            assert(cur.drop_last() =~= prev);
            assert(cur.last() == parts@[i - 1]@);
            if i == 1 {
                assert(prev.len() == 0);
                assert(r@ =~= cur[0]);
            }
        }
    }
    assert(string_views(parts@).take(parts@.len() as int) =~= string_views(parts@));
    r
}

} // verus!

verus! {

// ----- decimal numbers -----

pub open spec fn digit_char(d: int) -> char {
    (('0' as u32) + d) as char
}

/// The decimal digits of `n`, without leading zeros.
pub open spec fn spec_decimal(n: nat) -> Seq<char>
    decreases n,
{
    if n < 10 {
        seq![digit_char(n as int)]
    } else {
        spec_decimal(n / 10).push(digit_char((n % 10) as int))
    }
}

fn push_decimal(out: &mut Vec<char>, n: u64)
    ensures
        final(out)@ == old(out)@ + spec_decimal(n as nat),
    decreases n,
{
    if n >= 10 {
        push_decimal(out, n / 10);
    }
    let d: u8 = (n % 10) as u8;
    let c: char = (('0' as u8) + d) as char;
    assert(c == digit_char((n % 10) as int));
    out.push(c);
}

/// `n` in decimal, as `to_string` prints it.
pub fn decimal(n: u64) -> (r: String)
    ensures
        r@ == spec_decimal(n as nat),
{
    let mut v: Vec<char> = Vec::new();
    push_decimal(&mut v, n);
    assert(v@ =~= spec_decimal(n as nat));
    string_of(v.as_slice())
}

pub open spec fn is_digit(c: char) -> bool {
    '0' <= c && c <= '9'
}

pub open spec fn digit_value(c: char) -> int {
    (c as u32) - ('0' as u32)
}

/// The value of a sequence of decimal digits.
pub open spec fn digits_value(s: Seq<char>) -> int
    decreases s.len(),
{
    if s.len() == 0 {
        0
    } else {
        digits_value(s.drop_last()) * 10 + digit_value(s.last())
    }
}

pub open spec fn all_digits(s: Seq<char>) -> bool {
    forall|i: int| 0 <= i < s.len() ==> is_digit(#[trigger] s[i])
}

/// A decimal reads back as its number: it is a non-empty run of digits whose value is `n`.
pub proof fn decimal_reads_back(n: nat)
    ensures
        spec_decimal(n).len() >= 1,
        all_digits(spec_decimal(n)),
        digits_value(spec_decimal(n)) == n,
    decreases n,
{
    let d = spec_decimal(n);
    if n < 10 {
        let c = digit_char(n as int);
        assert(c as u32 == 48 + n);
        assert(d == seq![c]);
        assert(d.drop_last() =~= Seq::<char>::empty());
        assert(d.last() == c);
        assert(digits_value(d) == digits_value(d.drop_last()) * 10 + digit_value(d.last()));
        assert(digits_value(Seq::<char>::empty()) == 0);
    } else {
        decimal_reads_back(n / 10);
        let c = digit_char((n % 10) as int);
        assert(c as u32 == 48 + n % 10);
        let p = spec_decimal(n / 10);
        assert(d == p.push(c));
        assert(d.drop_last() =~= p);
        assert forall|i: int| 0 <= i < d.len() implies is_digit(#[trigger] d[i]) by {
            if i < p.len() {
                assert(d[i] == p[i]);
            }
        }
        assert(d.last() == c);
        assert(digit_value(c) == n % 10);
        assert(digits_value(d) == digits_value(p) * 10 + digit_value(c));
        assert(digits_value(p) == n / 10);
        assert(n == (n / 10) * 10 + n % 10);
    }
}

/// What `i64::from_str` gives: an optional sign, then at least one decimal digit, and a
/// value that fits.
pub open spec fn spec_parse_i64(s: Seq<char>) -> Option<i64> {
    let neg = s.len() > 0 && s[0] == '-';
    let signed = s.len() > 0 && (s[0] == '-' || s[0] == '+');
    let digits = if signed { s.drop_first() } else { s };
    let v = if neg { -digits_value(digits) } else { digits_value(digits) };
    if digits.len() > 0 && all_digits(digits) && i64::MIN <= v <= i64::MAX {
        Some(v as i64)
    } else {
        None
    }
}

/// What `usize::from_str` gives: an optional `+`, then at least one decimal digit, and a
/// value that fits.
pub open spec fn spec_parse_usize(s: Seq<char>) -> Option<usize> {
    let digits = if s.len() > 0 && s[0] == '+' { s.drop_first() } else { s };
    if digits.len() > 0 && all_digits(digits) && digits_value(digits) <= usize::MAX {
        Some(digits_value(digits) as usize)
    } else {
        None
    }
}

proof fn lemma_digits_value_nonneg(s: Seq<char>)
    requires
        all_digits(s),
    ensures
        digits_value(s) >= 0,
    decreases s.len(),
{
    if s.len() > 0 {
        assert(all_digits(s.drop_last()));
        lemma_digits_value_nonneg(s.drop_last());
    }
}

/// The value of the digits from `start`, or `None` when one is not a digit, there are none,
/// or the value passes `limit`.
fn digits_up_to(s: &[char], start: usize, limit: u64) -> (r: Option<u64>)
    requires
        start <= s@.len(),
    ensures
        match r {
            Some(v) => s@.len() > start && all_digits(s@.skip(start as int)) && v == digits_value(s@.skip(start as int)) && v <= limit,
            None => !(s@.len() > start && all_digits(s@.skip(start as int)) && digits_value(s@.skip(start as int)) <= limit),
        },
{
    if start == s.len() {
        return None;
    }
    let mut acc: u64 = 0;
    let mut i: usize = start;
    while i < s.len()
        invariant
            start <= i <= s@.len(),
            start < s@.len(),
            all_digits(s@.subrange(start as int, i as int)),
            acc == digits_value(s@.subrange(start as int, i as int)),
            acc <= limit,
        decreases s@.len() - i,
    {
        let c = s[i];
        let ghost prefix = s@.subrange(start as int, i as int);
        if !('0' <= c && c <= '9') {
            assert(!all_digits(s@.skip(start as int))) by {
                assert(s@.skip(start as int)[i - start] == c);
            }
            return None;
        }
        let d: u64 = (c as u32 - '0' as u32) as u64;
        assert(s@.subrange(start as int, i + 1) =~= prefix.push(c));
        assert(s@.subrange(start as int, i + 1).drop_last() =~= prefix);
        let next: u128 = acc as u128 * 10 + d as u128;
        assert(digits_value(prefix.push(c)) == acc * 10 + d);
        if next > limit as u128 {
            proof {
                if all_digits(s@.skip(start as int)) {
                    lemma_digits_prefix_le(s@.skip(start as int), i + 1 - start);
                    assert(s@.skip(start as int).take(i + 1 - start) =~= prefix.push(c));
                }
            }
            return None;
        }
        acc = next as u64;
        i = i + 1;
    }
    assert(s@.subrange(start as int, s@.len() as int) =~= s@.skip(start as int));
    Some(acc)
}

proof fn lemma_digits_prefix_le(t: Seq<char>, k: int)
    requires
        all_digits(t),
        0 <= k <= t.len(),
    ensures
        digits_value(t.take(k)) <= digits_value(t),
    decreases t.len() - k,
{
    if k < t.len() {
        lemma_digits_prefix_le(t, k + 1);
        assert(t.take(k + 1).drop_last() =~= t.take(k));
        assert(all_digits(t.take(k)));
        lemma_digits_value_nonneg(t.take(k));
        assert(is_digit(t.take(k + 1).last()));
    } else {
        assert(t.take(k) =~= t);
    }
}

} // verus!

verus! {

/// `str::parse::<i64>`, as an `Option`.
pub fn parse_i64(text: &str) -> (r: Option<i64>)
    ensures
        r == spec_parse_i64(text@),
{
    let s = chars_of(text);
    let neg = s.len() > 0 && s[0] == '-';
    let signed = s.len() > 0 && (s[0] == '-' || s[0] == '+');
    let start: usize = if signed { 1 } else { 0 };
    assert(s@.skip(start as int) =~= (if signed { s@.drop_first() } else { s@ }));
    if neg {
        match digits_up_to(s.as_slice(), start, 9223372036854775808u64) {
            Some(v) => {
                if v == 9223372036854775808u64 {
                    Some(i64::MIN)
                } else {
                    Some(-(v as i64))
                }
            },
            None => None,
        }
    } else {
        match digits_up_to(s.as_slice(), start, 9223372036854775807u64) {
            Some(v) => Some(v as i64),
            None => {
                proof {
                    let digits = s@.skip(start as int);
                    if digits.len() > 0 && all_digits(digits) {
                        lemma_digits_value_nonneg(digits);
                    }
                }
                None
            },
        }
    }
}

/// `str::parse::<usize>`, as an `Option`.
pub fn parse_usize(text: &str) -> (r: Option<usize>)
    ensures
        r == spec_parse_usize(text@),
{
    let s = chars_of(text);
    let start: usize = if s.len() > 0 && s[0] == '+' { 1 } else { 0 };
    assert(s@.skip(start as int) =~= (if s@.len() > 0 && s@[0] == '+' { s@.drop_first() } else { s@ }));
    match digits_up_to(s.as_slice(), start, usize::MAX as u64) {
        Some(v) => Some(v as usize),
        None => None,
    }
}

} // verus!

verus! {

/// The first `n` characters.
pub fn take_prefix(s: &[char], n: usize) -> (r: Vec<char>)
    requires
        n <= s@.len(),
    ensures
        r@ == s@.take(n as int),
{
    let mut r: Vec<char> = Vec::new();
    let mut i: usize = 0;
    while i < n
        invariant
            n <= s@.len(),
            i <= n,
            r@ == s@.take(i as int),
        decreases n - i,
    {
        r.push(s[i]);
        i = i + 1;
        assert(r@ == s@.take(i as int));
    }
    r
}

} // verus!

verus! {

// ----- trimming whitespace -----

/// The string without its leading whitespace.
pub open spec fn spec_trim_start(s: Seq<char>) -> Seq<char>
    decreases s.len(),
{
    if s.len() > 0 && unicode_whitespace(s[0]) {
        spec_trim_start(s.drop_first())
    } else {
        s
    }
}

/// The string without its trailing whitespace.
pub open spec fn spec_trim_end(s: Seq<char>) -> Seq<char>
    decreases s.len(),
{
    if s.len() > 0 && unicode_whitespace(s.last()) {
        spec_trim_end(s.drop_last())
    } else {
        s
    }
}

/// The string without leading and trailing whitespace, as `str::trim` leaves it.
pub open spec fn spec_trim(s: Seq<char>) -> Seq<char> {
    spec_trim_end(spec_trim_start(s))
}

/// Whether every character of the string is whitespace.
pub open spec fn all_whitespace(s: Seq<char>) -> bool {
    forall|i: int| 0 <= i < s.len() ==> unicode_whitespace(#[trigger] s[i])
}

proof fn lemma_trim_start_skip(s: Seq<char>, i: int)
    requires
        0 <= i <= s.len(),
        forall|k: int| 0 <= k < i ==> unicode_whitespace(#[trigger] s[k]),
    ensures
        spec_trim_start(s) == spec_trim_start(s.skip(i)),
    decreases i,
{
    if i > 0 {
        assert(s.skip(1) == s.drop_first());
        lemma_trim_start_skip(s.drop_first(), i - 1);
        assert(s.drop_first().skip(i - 1) =~= s.skip(i));
    } else {
        assert(s.skip(0) =~= s);
    }
}

proof fn lemma_trim_end_take(s: Seq<char>, j: int)
    requires
        0 <= j <= s.len(),
        forall|k: int| j <= k < s.len() ==> unicode_whitespace(#[trigger] s[k]),
    ensures
        spec_trim_end(s) == spec_trim_end(s.take(j)),
    decreases s.len() - j,
{
    if j < s.len() {
        assert(s.drop_last().take(j) =~= s.take(j));
        lemma_trim_end_take(s.drop_last(), j);
    } else {
        assert(s.take(j) =~= s);
    }
}

/// The characters without leading and trailing whitespace.
pub fn trim(s: &[char]) -> (r: Vec<char>)
    ensures
        r@ == spec_trim(s@),
        r@.len() == 0 <==> all_whitespace(s@),
{
    let mut i: usize = 0;
    while i < s.len() && is_whitespace(s[i])
        invariant
            i <= s@.len(),
            forall|k: int| 0 <= k < i ==> unicode_whitespace(#[trigger] s@[k]),
        decreases s@.len() - i,
    {
        i = i + 1;
    }
    proof {
        lemma_trim_start_skip(s@, i as int);
        if i < s@.len() {
            assert(!unicode_whitespace(s@.skip(i as int)[0]));
        }
    }
    let ghost t = s@.skip(i as int);
    assert(spec_trim_start(s@) == t);
    let mut j: usize = s.len();
    while j > i && is_whitespace(s[j - 1])
        invariant
            i <= j <= s@.len(),
            forall|k: int| j <= k < s@.len() ==> unicode_whitespace(#[trigger] s@[k]),
        decreases j,
    {
        j = j - 1;
    }
    let mut r: Vec<char> = Vec::new();
    let mut k: usize = i;
    while k < j
        invariant
            i <= k <= j <= s@.len(),
            r@ == s@.subrange(i as int, k as int),
        decreases j - k,
    {
        r.push(s[k]);
        k = k + 1;
        assert(r@ =~= s@.subrange(i as int, k as int));
    }
    proof {
        let jj = (j - i) as int;
        assert forall|k2: int| jj <= k2 < t.len() implies unicode_whitespace(#[trigger] t[k2]) by {
            assert(t[k2] == s@[k2 + i]);
        }
        lemma_trim_end_take(t, jj);
        assert(t.take(jj) =~= s@.subrange(i as int, j as int));
        if jj > 0 {
            assert(t.take(jj).last() == s@[j - 1]);
            assert(!unicode_whitespace(t.take(jj).last()));
        }
        assert(spec_trim_end(t.take(jj)) == t.take(jj));
        if r@.len() == 0 {
            assert(i == j);
            assert forall|k2: int| 0 <= k2 < s@.len() implies unicode_whitespace(#[trigger] s@[k2]) by {
                if k2 >= i {
                }
            }
        } else {
            assert(!unicode_whitespace(s@[i as int]));
        }
    }
    r
}

/// `String::from_utf8_lossy`: the bytes as text, each invalid sequence replaced by
/// U+FFFD. Valid UTF-8 decodes as itself; the replacement of invalid input is named, not
/// described.
pub uninterp spec fn lossy_utf8(bytes: Seq<u8>) -> Seq<char>;

/// `String::from_utf8_lossy`, into an owned string.
#[verifier::external_body]
pub(crate) fn utf8_lossy(bytes: &[u8]) -> (r: String)
    ensures
        r@ == lossy_utf8(bytes@),
        vstd::utf8::valid_utf8(bytes@) ==> r@ == vstd::utf8::decode_utf8(bytes@),
{
    String::from_utf8_lossy(bytes).into_owned()
}

} // verus!

verus! {

proof fn lemma_split_acc_first(s: Seq<char>, sep: char, n: int)
    requires
        0 <= n <= s.len(),
    ensures
        ({
            let (done, cur) = split_acc(s, sep, n);
            &&& done.len() > 0 ==> done[0].len() < n && s[done[0].len() as int] == sep && s.take(
                done[0].len() as int,
            ) == done[0]
            &&& done.len() == 0 ==> cur == s.take(n)
        }),
    decreases n,
{
    if n > 0 {
        lemma_split_acc_first(s, sep, n - 1);
        let (done, cur) = split_acc(s, sep, n - 1);
        if done.len() == 0 {
            if s[n - 1] == sep {
                assert(split_acc(s, sep, n).0 == done.push(cur));
                assert(split_acc(s, sep, n).0[0] == cur);
            } else {
                assert(cur.push(s[n - 1]) =~= s.take(n));
            }
        } else {
            if s[n - 1] == sep {
                assert(split_acc(s, sep, n).0[0] == done[0]);
            }
        }
    } else {
        assert(s.take(0) =~= Seq::<char>::empty());
    }
}

/// When `s` holds `sep`, the first piece of `s` split at `sep` is what precedes the first
/// `sep`.
pub proof fn lemma_split_first_piece(s: Seq<char>, sep: char)
    ensures
        split_on(s, sep).len() > 1 ==> {
            let first = split_on(s, sep)[0];
            &&& first.len() < s.len()
            &&& s[first.len() as int] == sep
            &&& s.take(first.len() as int) == first
        },
{
    lemma_split_acc_first(s, sep, s.len() as int);
}

} // verus!

verus! {

/// The characters after the first `n`.
pub fn drop_prefix(s: &[char], n: usize) -> (r: Vec<char>)
    requires
        n <= s@.len(),
    ensures
        r@ == s@.skip(n as int),
{
    let mut r: Vec<char> = Vec::new();
    let mut i: usize = n;
    while i < s.len()
        invariant
            n <= i <= s@.len(),
            r@ == s@.subrange(n as int, i as int),
        decreases s@.len() - i,
    {
        r.push(s[i]);
        i = i + 1;
        assert(r@ =~= s@.subrange(n as int, i as int));
    }
    assert(s@.subrange(n as int, s@.len() as int) =~= s@.skip(n as int));
    r
}

} // verus!
