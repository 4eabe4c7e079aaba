//! Verified character-level string helpers used throughout the library.

use vstd::prelude::*;

verus! {

// ---------------------------------------------------------------------------
// Building strings
// ---------------------------------------------------------------------------

/// Relies on String::push from std: appends exactly one character.
#[verifier::external_body]
fn char_append(s: &mut String, c: char)
    ensures
        final(s)@ == old(s)@.push(c),
{
    s.push(c);
}

/// Push a single character onto a string.
pub fn push_char(s: &mut String, c: char)
    ensures
        final(s)@ == old(s)@.push(c),
{
    char_append(s, c);
}

/// A one-character string.
pub fn char_to_string(c: char) -> (r: String)
    ensures
        r@ == seq![c],
{
    let mut s = String::new();
    push_char(&mut s, c);
    proof {
        assert(s@ =~= seq![c]);
    }
    s
}

/// Copy of a `&str` slice with each occurrence of `from` replaced by `to`.
pub fn replace_char(s: &str, from: char, to: char) -> (r: String)
    ensures
        r@ == s@.map_values(|c: char| if c == from { to } else { c }),
{
    let n = s.unicode_len();
    let mut out = String::new();
    let mut i: usize = 0;
    while i < n
        invariant
            n == s@.len(),
            i <= n,
            out@ == s@.subrange(0, i as int).map_values(
                |c: char| if c == from { to } else { c },
            ),
        decreases n - i,
    {
        let c = s.get_char(i);
        if c == from {
            push_char(&mut out, to);
        } else {
            push_char(&mut out, c);
        }
        i += 1;
        proof {
            assert(s@.subrange(0, i as int) =~= s@.subrange(0, i - 1).push(s@[i - 1]));
            assert(out@ =~= s@.subrange(0, i as int).map_values(
                |c: char| if c == from { to } else { c },
            ));
        }
    }
    proof {
        assert(s@.subrange(0, n as int) =~= s@);
    }
    out
}

// ---------------------------------------------------------------------------
// Comparison and search
// ---------------------------------------------------------------------------

/// Character-wise string equality.
pub fn eq_str(a: &str, b: &str) -> (r: bool)
    ensures
        r == (a@ == b@),
{
    let an = a.unicode_len();
    let bn = b.unicode_len();
    if an != bn {
        return false;
    }
    let mut i: usize = 0;
    while i < an
        invariant
            an == a@.len(),
            an == b@.len(),
            i <= an,
            forall|j: int| 0 <= j < i ==> a@[j] == b@[j],
        decreases an - i,
    {
        if a.get_char(i) != b.get_char(i) {
            return false;
        }
        i += 1;
    }
    proof {
        assert(a@ =~= b@);
    }
    true
}

/// Whether `p` is a prefix of `s`.
pub fn starts_with(s: &str, p: &str) -> (r: bool)
    ensures
        r == p@.is_prefix_of(s@),
{
    let sn = s.unicode_len();
    let pn = p.unicode_len();
    if pn > sn {
        return false;
    }
    let mut i: usize = 0;
    while i < pn
        invariant
            sn == s@.len(),
            pn == p@.len(),
            pn <= sn,
            i <= pn,
            forall|j: int| 0 <= j < i ==> s@[j] == p@[j],
        decreases pn - i,
    {
        if s.get_char(i) != p.get_char(i) {
            return false;
        }
        i += 1;
    }
    proof {
        assert(p@ =~= s@.subrange(0, pn as int));
    }
    true
}

/// Whether `needle` occurs in `hay` as a contiguous substring.
pub open spec fn contains_seq(hay: Seq<char>, needle: Seq<char>) -> bool {
    exists|i: int|
        0 <= i && i + needle.len() <= hay.len() && #[trigger] hay.subrange(
            i,
            i + needle.len() as int,
        ) == needle
}

/// Substring search.
pub fn contains_sub(hay: &str, needle: &str) -> (r: bool)
    ensures
        r == contains_seq(hay@, needle@),
{
    let hn = hay.unicode_len();
    let nn = needle.unicode_len();
    if nn > hn {
        return false;
    }
    let mut i: usize = 0;
    while i <= hn - nn
        invariant
            hn == hay@.len(),
            nn == needle@.len(),
            nn <= hn,
            i <= hn - nn + 1,
            forall|k: int|
                0 <= k < i ==> #[trigger] hay@.subrange(k, k + nn as int) != needle@,
        decreases hn - nn - i + 1,
    {
        let mut j: usize = 0;
        let mut matched = true;
        while j < nn
            invariant
                hn == hay@.len(),
                nn == needle@.len(),
                i + nn <= hn,
                j <= nn,
                matched <==> (forall|t: int| 0 <= t < j ==> hay@[i + t] == needle@[t]),
            decreases nn - j,
        {
            if hay.get_char(i + j) != needle.get_char(j) {
                matched = false;
                j = nn;
            } else {
                proof {
                    assert(hay@[i + j] == needle@[j as int]);
                }
                j += 1;
            }
        }
        if matched {
            proof {
                assert(hay@.subrange(i as int, i + nn as int) =~= needle@);
            }
            return true;
        }
        proof {
            if hay@.subrange(i as int, i + nn as int) == needle@ {
                assert(forall|t: int|
                    0 <= t < nn ==> hay@[i + t] == #[trigger] hay@.subrange(
                        i as int,
                        i + nn as int,
                    )[t]);
                assert(false);
            }
        }
        i += 1;
    }
    proof {
        if contains_seq(hay@, needle@) {
            let w = choose|w: int|
                0 <= w && w + needle@.len() <= hay@.len() && #[trigger] hay@.subrange(
                    w,
                    w + needle@.len() as int,
                ) == needle@;
            assert(hay@.subrange(w, w + nn as int) != needle@);
        }
    }
    false
}

/// Index of the first occurrence of `c` in `s`.
pub fn find_char(s: &str, c: char) -> (r: Option<usize>)
    ensures
        match r {
            Some(i) => i < s@.len() && s@[i as int] == c && forall|j: int|
                0 <= j < i ==> s@[j] != c,
            None => forall|j: int| 0 <= j < s@.len() ==> s@[j] != c,
        },
{
    let n = s.unicode_len();
    let mut i: usize = 0;
    while i < n
        invariant
            n == s@.len(),
            i <= n,
            forall|j: int| 0 <= j < i ==> s@[j] != c,
        decreases n - i,
    {
        if s.get_char(i) == c {
            return Some(i);
        }
        i += 1;
    }
    None
}

/// Index of the last occurrence of `c` in `s`.
pub fn rfind_char(s: &str, c: char) -> (r: Option<usize>)
    ensures
        match r {
            Some(i) => i < s@.len() && s@[i as int] == c && forall|j: int|
                i < j < s@.len() ==> s@[j] != c,
            None => forall|j: int| 0 <= j < s@.len() ==> s@[j] != c,
        },
{
    let n = s.unicode_len();
    let mut i: usize = n;
    while i > 0
        invariant
            n == s@.len(),
            i <= n,
            forall|j: int| i <= j < n ==> s@[j] != c,
        decreases i,
    {
        i -= 1;
        if s.get_char(i) == c {
            return Some(i);
        }
    }
    None
}

/// Copy of the characters of `s` from `from` (inclusive) to `to` (exclusive).
pub fn substring(s: &str, from: usize, to: usize) -> (r: String)
    requires
        from <= to <= s@.len(),
    ensures
        r@ == s@.subrange(from as int, to as int),
{
    let sub = s.substring_char(from, to);
    sub.to_owned()
}

// ---------------------------------------------------------------------------
// Whitespace, trimming, tokens
// ---------------------------------------------------------------------------

/// The whitespace characters this library recognises.
pub open spec fn is_ws(c: char) -> bool {
    c == ' ' || c == '\t' || c == '\n' || c == '\r' || c == '\u{000B}' || c == '\u{000C}'
}

/// Executable whitespace test.
pub fn is_ws_char(c: char) -> (r: bool)
    ensures
        r == is_ws(c),
{
    c == ' ' || c == '\t' || c == '\n' || c == '\r' || c == '\u{000B}' || c == '\u{000C}'
}

/// `s` without leading whitespace.
pub open spec fn trim_start_spec(s: Seq<char>) -> Seq<char>
    decreases s.len(),
{
    if s.len() > 0 && is_ws(s[0]) {
        trim_start_spec(s.subrange(1, s.len() as int))
    } else {
        s
    }
}

/// `s` without trailing whitespace.
pub open spec fn trim_end_spec(s: Seq<char>) -> Seq<char>
    decreases s.len(),
{
    if s.len() > 0 && is_ws(s[s.len() - 1]) {
        trim_end_spec(s.subrange(0, s.len() - 1))
    } else {
        s
    }
}

/// `s` without leading and trailing whitespace.
pub open spec fn trim_spec(s: Seq<char>) -> Seq<char> {
    trim_end_spec(trim_start_spec(s))
}

proof fn lemma_trim_start_skip(s: Seq<char>, i: int)
    requires
        0 <= i <= s.len(),
        forall|j: int| 0 <= j < i ==> is_ws(s[j]),
    ensures
        trim_start_spec(s) == trim_start_spec(s.subrange(i, s.len() as int)),
    decreases i,
{
    if i > 0 {
        assert(is_ws(s[0]));
        let t = s.subrange(1, s.len() as int);
        lemma_trim_start_skip(t, i - 1);
        assert(t.subrange(i - 1, t.len() as int) =~= s.subrange(i, s.len() as int));
    } else {
        assert(s.subrange(0, s.len() as int) =~= s);
    }
}

proof fn lemma_trim_end_skip(s: Seq<char>, i: int)
    requires
        0 <= i <= s.len(),
        forall|j: int| i <= j < s.len() ==> is_ws(s[j]),
    ensures
        trim_end_spec(s) == trim_end_spec(s.subrange(0, i)),
    decreases s.len() - i,
{
    if i < s.len() {
        assert(is_ws(s[s.len() - 1]));
        let t = s.subrange(0, s.len() - 1);
        lemma_trim_end_skip(t, i);
        assert(t.subrange(0, i) =~= s.subrange(0, i));
    } else {
        assert(s.subrange(0, s.len() as int) =~= s);
    }
}

/// Copy of `s` without leading or trailing whitespace.
pub fn trim(s: &str) -> (r: String)
    ensures
        r@ == trim_spec(s@),
{
    let n = s.unicode_len();
    let mut i: usize = 0;
    while i < n && is_ws_char(s.get_char(i))
        invariant
            n == s@.len(),
            i <= n,
            forall|j: int| 0 <= j < i ==> is_ws(s@[j]),
        decreases n - i,
    {
        i += 1;
    }
    let mut j: usize = n;
    while j > i && is_ws_char(s.get_char(j - 1))
        invariant
            n == s@.len(),
            i <= j <= n,
            forall|k: int| 0 <= k < i ==> is_ws(s@[k]),
            forall|k: int| j <= k < n ==> is_ws(s@[k]),
        decreases j,
    {
        j -= 1;
    }
    proof {
        lemma_trim_start_skip(s@, i as int);
        let m = s@.subrange(i as int, n as int);
        if i < n {
            assert(!is_ws(s@[i as int]));
            assert(m[0] == s@[i as int]);
            assert(trim_start_spec(m) == m);
        } else {
            assert(m.len() == 0);
            assert(trim_start_spec(m) == m);
        }
        if j > i {
            assert(!is_ws(s@[j - 1]));
        }
        assert(forall|k: int| j - i <= k < m.len() ==> is_ws(m[k]));
        lemma_trim_end_skip(m, j - i);
        assert(m.subrange(0, j - i) =~= s@.subrange(i as int, j as int));
        if j > i {
            let t = s@.subrange(i as int, j as int);
            assert(!is_ws(t[t.len() - 1]));
            assert(trim_end_spec(t) == t);
        } else {
            let t = s@.subrange(i as int, j as int);
            assert(t.len() == 0);
            assert(trim_end_spec(t) == t);
        }
    }
    substring(s, i, j)
}

/// Copy of `s` without leading whitespace.
pub fn trim_start(s: &str) -> (r: String)
    ensures
        r@ == trim_start_spec(s@),
{
    let n = s.unicode_len();
    let mut i: usize = 0;
    while i < n && is_ws_char(s.get_char(i))
        invariant
            n == s@.len(),
            i <= n,
            forall|j: int| 0 <= j < i ==> is_ws(s@[j]),
        decreases n - i,
    {
        i += 1;
    }
    proof {
        lemma_trim_start_skip(s@, i as int);
        let m = s@.subrange(i as int, n as int);
        if i < n {
            assert(!is_ws(s@[i as int]));
            assert(m[0] == s@[i as int]);
        }
        assert(trim_start_spec(m) == m);
    }
    substring(s, i, n)
}

/// `s` without trailing `c` characters.
pub open spec fn trim_end_char_spec(s: Seq<char>, c: char) -> Seq<char>
    decreases s.len(),
{
    if s.len() > 0 && s[s.len() - 1] == c {
        trim_end_char_spec(s.subrange(0, s.len() - 1), c)
    } else {
        s
    }
}

proof fn lemma_trim_end_char_skip(s: Seq<char>, c: char, i: int)
    requires
        0 <= i <= s.len(),
        forall|j: int| i <= j < s.len() ==> s[j] == c,
    ensures
        trim_end_char_spec(s, c) == trim_end_char_spec(s.subrange(0, i), c),
    decreases s.len() - i,
{
    if i < s.len() {
        let t = s.subrange(0, s.len() - 1);
        lemma_trim_end_char_skip(t, c, i);
        assert(t.subrange(0, i) =~= s.subrange(0, i));
    } else {
        assert(s.subrange(0, s.len() as int) =~= s);
    }
}

/// Copy of `s` without trailing occurrences of `c`.
pub fn trim_end_char(s: &str, c: char) -> (r: String)
    ensures
        r@ == trim_end_char_spec(s@, c),
{
    let n = s.unicode_len();
    let mut j: usize = n;
    while j > 0 && s.get_char(j - 1) == c
        invariant
            n == s@.len(),
            j <= n,
            forall|k: int| j <= k < n ==> s@[k] == c,
        decreases j,
    {
        j -= 1;
    }
    proof {
        lemma_trim_end_char_skip(s@, c, j as int);
        let t = s@.subrange(0, j as int);
        if j > 0 {
            assert(t[t.len() - 1] == s@[j - 1]);
        }
        assert(trim_end_char_spec(t, c) == t);
    }
    substring(s, 0, j)
}

// ---------------------------------------------------------------------------
// Decimal formatting and parsing
// ---------------------------------------------------------------------------

/// The decimal digit character for a value below ten.
pub open spec fn dec_digit(d: nat) -> char {
    if d == 0 {
        '0'
    } else if d == 1 {
        '1'
    } else if d == 2 {
        '2'
    } else if d == 3 {
        '3'
    } else if d == 4 {
        '4'
    } else if d == 5 {
        '5'
    } else if d == 6 {
        '6'
    } else if d == 7 {
        '7'
    } else if d == 8 {
        '8'
    } else {
        '9'
    }
}

/// The decimal representation of a natural number.
pub open spec fn dec_str(n: nat) -> Seq<char>
    decreases n,
{
    if n < 10 {
        seq![dec_digit(n)]
    } else {
        dec_str(n / 10).push(dec_digit(n % 10))
    }
}

/// The decimal representation of an integer, with a sign when negative.
pub open spec fn int_str(i: int) -> Seq<char> {
    if i < 0 {
        seq!['-'].add(dec_str((-i) as nat))
    } else {
        dec_str(i as nat)
    }
}

fn digit_char(d: u64) -> (c: char)
    requires
        d < 10,
    ensures
        c == dec_digit(d as nat),
{
    if d == 0 {
        '0'
    } else if d == 1 {
        '1'
    } else if d == 2 {
        '2'
    } else if d == 3 {
        '3'
    } else if d == 4 {
        '4'
    } else if d == 5 {
        '5'
    } else if d == 6 {
        '6'
    } else if d == 7 {
        '7'
    } else if d == 8 {
        '8'
    } else {
        '9'
    }
}

/// Decimal text of an unsigned integer.
pub fn u64_to_string(n: u64) -> (r: String)
    ensures
        r@ == dec_str(n as nat),
    decreases n,
{
    if n < 10 {
        char_to_string(digit_char(n))
    } else {
        let mut s = u64_to_string(n / 10);
        push_char(&mut s, digit_char(n % 10));
        s
    }
}

/// Decimal text of a signed integer, with a `-` sign when negative.
pub fn i64_to_string(n: i64) -> (r: String)
    requires
        n > i64::MIN,
    ensures
        r@ == int_str(n as int),
{
    if n < 0 {
        let mut s = char_to_string('-');
        let rest = u64_to_string((-n) as u64);
        s.append(rest.as_str());
        proof {
            assert(s@ =~= int_str(n as int));
        }
        s
    } else {
        u64_to_string(n as u64)
    }
}

/// Whether `c` is a decimal digit, and its value.
pub open spec fn is_digit(c: char) -> bool {
    '0' <= c <= '9'
}

/// The numeric value of a digit character.
pub open spec fn digit_val(c: char) -> nat {
    (c as nat - '0' as nat) as nat
}

/// The value of a digit string, read left to right.
pub open spec fn digits_val(s: Seq<char>) -> nat
    decreases s.len(),
{
    if s.len() == 0 {
        0
    } else {
        digits_val(s.subrange(0, s.len() - 1)) * 10 + digit_val(s[s.len() - 1])
    }
}

/// A non-empty digit string whose value fits in 32 bits, or nothing.
pub open spec fn parse_u32_digits(t: Seq<char>) -> Option<u32> {
    if t.len() > 0 && (forall|j: int| 0 <= j < t.len() ==> is_digit(t[j])) && digits_val(t)
        <= u32::MAX {
        Some(digits_val(t) as u32)
    } else {
        None
    }
}

/// What `str::parse::<u32>` accepts: an optional `+`, then one or more
/// digits, whose value fits in 32 bits.
pub open spec fn parse_u32_spec(s: Seq<char>) -> Option<u32> {
    if s.len() > 0 && s[0] == '+' {
        parse_u32_digits(s.subrange(1, s.len() as int))
    } else {
        parse_u32_digits(s)
    }
}

proof fn lemma_digits_val_grows(s: Seq<char>, i: int)
    requires
        0 <= i <= s.len(),
    ensures
        digits_val(s) >= digits_val(s.subrange(0, i)),
    decreases s.len() - i,
{
    if i < s.len() {
        lemma_digits_val_grows(s, i + 1);
        let p = s.subrange(0, i + 1);
        assert(p.subrange(0, p.len() - 1) =~= s.subrange(0, i));
        assert(digits_val(p) == digits_val(s.subrange(0, i)) * 10 + digit_val(s[i]));
    } else {
        assert(s.subrange(0, s.len() as int) =~= s);
    }
}

/// Parse an unsigned 32-bit decimal number, as `str::parse::<u32>` would.
pub fn parse_u32(s: &str) -> (r: Option<u32>)
    ensures
        r == parse_u32_spec(s@),
{
    let n = s.unicode_len();
    let mut start: usize = 0;
    if n > 0 && s.get_char(0) == '+' {
        start = 1;
    }
    let ghost t = if s@.len() > 0 && s@[0] == '+' {
        s@.subrange(1, s@.len() as int)
    } else {
        s@
    };
    if start >= n {
        proof {
            assert(t.len() == 0);
        }
        return None;
    }
    proof {
        assert(t =~= s@.subrange(start as int, n as int));
    }
    let mut acc: u64 = 0;
    let mut i: usize = start;
    while i < n
        invariant
            n == s@.len(),
            start <= i <= n,
            start == 0 || start == 1,
            start == 1 ==> s@.len() > 0 && s@[0] == '+',
            start == 0 ==> !(s@.len() > 0 && s@[0] == '+'),
            t == s@.subrange(start as int, n as int),
            forall|j: int| start <= j < i ==> is_digit(s@[j]),
            acc <= u32::MAX ==> acc == digits_val(s@.subrange(start as int, i as int)),
            acc > u32::MAX ==> digits_val(s@.subrange(start as int, i as int)) > u32::MAX,
            acc <= 0xFFFF_FFFFu64 * 11,
        decreases n - i,
    {
        let c = s.get_char(i);
        let u = c as u32;
        if u < 48 || u > 57 {
            proof {
                assert(!is_digit(s@[i as int])) by {
                    assert(('0' as u32) == 48 && ('9' as u32) == 57);
                };
                let jj = i - start;
                assert(0 <= jj < t.len());
                assert(t[jj as int] == s@[i as int]);
                assert(!is_digit(t[jj as int]));
                assert(!(forall|j: int| 0 <= j < t.len() ==> is_digit(t[j])));
                assert(parse_u32_spec(s@) is None);
            }
            return None;
        }
        proof {
            assert(is_digit(s@[i as int])) by {
                assert(('0' as u32) == 48 && ('9' as u32) == 57);
            };
        }
        let d = (u - 48) as u64;
        proof {
            assert(d == digit_val(s@[i as int])) by {
                assert(('0' as u32) == 48);
            };
        }
        if acc > u32::MAX as u64 {
            acc = u32::MAX as u64 + 1;
        }
        acc = acc * 10 + d;
        i += 1;
        proof {
            let pre = s@.subrange(start as int, i as int);
            assert(pre.subrange(0, pre.len() - 1) =~= s@.subrange(start as int, i - 1));
            assert(pre[pre.len() - 1] == s@[i - 1]);
        }
    }
    proof {
        assert(t =~= s@.subrange(start as int, n as int));
    }
    if acc > u32::MAX as u64 {
        return None;
    }
    Some(acc as u32)
}

// ---------------------------------------------------------------------------
// ASCII case folding
// ---------------------------------------------------------------------------

/// Lower-case mapping for an ASCII letter; other characters unchanged.
pub open spec fn ascii_lower(c: char) -> char {
    if 'A' <= c <= 'Z' {
        ((c as u8) + 32) as char
    } else {
        c
    }
}

/// Copy of `s` with ASCII letters folded to lower case.
pub fn to_ascii_lower(s: &str) -> (r: String)
    ensures
        r@ == s@.map_values(|c: char| ascii_lower(c)),
{
    let n = s.unicode_len();
    let mut out = String::new();
    let mut i: usize = 0;
    while i < n
        invariant
            n == s@.len(),
            i <= n,
            out@ == s@.subrange(0, i as int).map_values(|c: char| ascii_lower(c)),
        decreases n - i,
    {
        let c = s.get_char(i);
        let u = c as u32;
        if 65 <= u && u <= 90 {
            proof {
                assert('A' <= s@[i as int] <= 'Z') by {
                    assert(('A' as u32) == 65 && ('Z' as u32) == 90);
                };
            }
            let lower = ((c as u8) + 32) as char;
            push_char(&mut out, lower);
        } else {
            proof {
                assert(!('A' <= s@[i as int] <= 'Z')) by {
                    assert(('A' as u32) == 65 && ('Z' as u32) == 90);
                };
            }
            push_char(&mut out, c);
        }
        i += 1;
        proof {
            assert(s@.subrange(0, i as int) =~= s@.subrange(0, i - 1).push(s@[i - 1]));
            assert(out@ =~= s@.subrange(0, i as int).map_values(|c: char| ascii_lower(c)));
        }
    }
    proof {
        assert(s@.subrange(0, n as int) =~= s@);
    }
    out
}


// ---------------------------------------------------------------------------
// Whitespace tokens and joining
// ---------------------------------------------------------------------------

/// The whitespace-separated tokens of `s`, with `cur` the token begun so far.
pub open spec fn tokens_acc(s: Seq<char>, cur: Seq<char>) -> Seq<Seq<char>>
    decreases s.len(),
{
    if s.len() == 0 {
        if cur.len() == 0 {
            Seq::empty()
        } else {
            seq![cur]
        }
    } else if is_ws(s[0]) {
        if cur.len() == 0 {
            tokens_acc(s.subrange(1, s.len() as int), Seq::empty())
        } else {
            seq![cur].add(tokens_acc(s.subrange(1, s.len() as int), Seq::empty()))
        }
    } else {
        tokens_acc(s.subrange(1, s.len() as int), cur.push(s[0]))
    }
}

/// The maximal non-whitespace runs of `s`, in order.
pub open spec fn tokens_spec(s: Seq<char>) -> Seq<Seq<char>> {
    tokens_acc(s, Seq::empty())
}

/// Split into whitespace-separated tokens.
pub fn split_ws(s: &str) -> (r: Vec<String>)
    ensures
        r@.map_values(|t: String| t@) == tokens_spec(s@),
{
    let n = s.unicode_len();
    let mut out: Vec<String> = Vec::new();
    let mut cur = String::new();
    let mut i: usize = 0;
    proof {
        assert(s@.subrange(0, n as int) =~= s@);
        assert(out@.map_values(|t: String| t@) =~= Seq::<Seq<char>>::empty());
        assert(Seq::<Seq<char>>::empty().add(tokens_acc(s@, cur@)) =~= tokens_acc(s@, cur@));
        assert(cur@ =~= Seq::<char>::empty());
    }
    while i < n
        invariant
            n == s@.len(),
            i <= n,
            out@.map_values(|t: String| t@).add(
                tokens_acc(s@.subrange(i as int, n as int), cur@),
            ) == tokens_spec(s@),
        decreases n - i,
    {
        let ghost pre = out@.map_values(|t: String| t@);
        let ghost curv = cur@;
        let ghost rem = s@.subrange(i as int, n as int);
        proof {
            assert(rem[0] == s@[i as int]);
            assert(rem.subrange(1, rem.len() as int) =~= s@.subrange(i + 1, n as int));
        }
        let c = s.get_char(i);
        if is_ws_char(c) {
            if cur.as_str().unicode_len() > 0 {
                out.push(cur);
                cur = String::new();
                proof {
                    assert(cur@ =~= Seq::<char>::empty());
                    assert(out@.map_values(|t: String| t@) =~= pre.push(curv));
                    assert(tokens_acc(rem, curv) == seq![curv].add(
                        tokens_acc(s@.subrange(i + 1, n as int), Seq::empty()),
                    ));
                    assert(pre.push(curv).add(
                        tokens_acc(s@.subrange(i + 1, n as int), Seq::<char>::empty()),
                    ) =~= pre.add(seq![curv].add(
                        tokens_acc(s@.subrange(i + 1, n as int), Seq::<char>::empty()),
                    )));
                }
            } else {
                proof {
                    assert(curv =~= Seq::<char>::empty());
                    assert(tokens_acc(rem, curv) == tokens_acc(
                        s@.subrange(i + 1, n as int),
                        Seq::<char>::empty(),
                    ));
                }
            }
        } else {
            push_char(&mut cur, c);
            proof {
                assert(tokens_acc(rem, curv) == tokens_acc(
                    s@.subrange(i + 1, n as int),
                    curv.push(rem[0]),
                ));
            }
        }
        i += 1;
    }
    proof {
        assert(s@.subrange(i as int, n as int).len() == 0);
    }
    if cur.as_str().unicode_len() > 0 {
        let ghost pre = out@.map_values(|t: String| t@);
        let ghost curv = cur@;
        proof {
            assert(tokens_acc(s@.subrange(i as int, n as int), curv) == seq![curv]);
        }
        out.push(cur);
        proof {
            assert(out@.map_values(|t: String| t@) =~= pre.push(curv));
            assert(pre.push(curv) =~= pre.add(seq![curv]));
        }
    } else {
        proof {
            assert(cur@ =~= Seq::<char>::empty());
            assert(tokens_acc(s@.subrange(i as int, n as int), cur@) =~= Seq::<Seq<
                char,
            >>::empty());
            assert(out@.map_values(|t: String| t@).add(Seq::<Seq<char>>::empty())
                =~= out@.map_values(|t: String| t@));
        }
    }
    out
}

/// The tokens joined with `sep` between neighbours.
pub open spec fn join_spec(ts: Seq<Seq<char>>, sep: Seq<char>) -> Seq<char>
    decreases ts.len(),
{
    if ts.len() == 0 {
        Seq::empty()
    } else if ts.len() == 1 {
        ts[0]
    } else {
        join_spec(ts.drop_last(), sep).add(sep).add(ts.last())
    }
}

/// Join strings with a separator.
pub fn join_strings(ts: &Vec<String>, sep: &str) -> (r: String)
    ensures
        r@ == join_spec(ts@.map_values(|t: String| t@), sep@),
{
    let mut out = String::new();
    let mut k: usize = 0;
    if ts.len() == 0 {
        proof {
            assert(ts@.map_values(|t: String| t@).len() == 0);
        }
        return out;
    }
    while k < ts.len()
        invariant
            k <= ts@.len(),
            out@ == join_spec(ts@.map_values(|t: String| t@).subrange(0, k as int), sep@),
        decreases ts@.len() - k,
    {
        if k > 0 {
            out.append(sep);
        }
        let t = &ts[k];
        out.append(t.as_str());
        k += 1;
        proof {
            let views = ts@.map_values(|t: String| t@);
            let prefix = views.subrange(0, k as int);
            assert(prefix.drop_last() =~= views.subrange(0, k - 1));
            assert(prefix.last() == views[k - 1]);
            if k == 1 {
                assert(out@ =~= join_spec(prefix, sep@));
            } else {
                assert(out@ =~= join_spec(prefix, sep@));
            }
        }
    }
    proof {
        let views = ts@.map_values(|t: String| t@);
        assert(views.subrange(0, views.len() as int) =~= views);
    }
    out
}


// ---------------------------------------------------------------------------
// Identifier characters and separator tokens
// ---------------------------------------------------------------------------

/// ASCII letters, digits, `_` and `-`: what a server-reference id is made of.
pub open spec fn is_ident(c: char) -> bool {
    ('a' <= c && c <= 'z') || ('A' <= c && c <= 'Z') || ('0' <= c && c <= '9') || c == '_'
        || c == '-'
}

/// Executable identifier-character test.
pub fn is_ident_char(c: char) -> (r: bool)
    ensures
        r == is_ident(c),
{
    let u = c as u32;
    let r = (97 <= u && u <= 122) || (65 <= u && u <= 90) || (48 <= u && u <= 57) || c == '_'
        || c == '-';
    proof {
        assert(r == is_ident(c)) by {
            assert(('a' as u32) == 97 && ('z' as u32) == 122);
            assert(('A' as u32) == 65 && ('Z' as u32) == 90);
            assert(('0' as u32) == 48 && ('9' as u32) == 57);
        };
    }
    r
}

/// `s` without leading non-identifier characters.
pub open spec fn trim_start_non_ident(s: Seq<char>) -> Seq<char>
    decreases s.len(),
{
    if s.len() > 0 && !is_ident(s[0]) {
        trim_start_non_ident(s.subrange(1, s.len() as int))
    } else {
        s
    }
}

/// `s` without trailing non-identifier characters.
pub open spec fn trim_end_non_ident(s: Seq<char>) -> Seq<char>
    decreases s.len(),
{
    if s.len() > 0 && !is_ident(s[s.len() - 1]) {
        trim_end_non_ident(s.subrange(0, s.len() - 1))
    } else {
        s
    }
}

/// `s` without non-identifier characters at either end.
pub open spec fn trim_non_ident_spec(s: Seq<char>) -> Seq<char> {
    trim_end_non_ident(trim_start_non_ident(s))
}

proof fn lemma_trim_start_non_ident_skip(s: Seq<char>, i: int)
    requires
        0 <= i <= s.len(),
        forall|j: int| 0 <= j < i ==> !is_ident(s[j]),
    ensures
        trim_start_non_ident(s) == trim_start_non_ident(s.subrange(i, s.len() as int)),
    decreases i,
{
    if i > 0 {
        let t = s.subrange(1, s.len() as int);
        lemma_trim_start_non_ident_skip(t, i - 1);
        assert(t.subrange(i - 1, t.len() as int) =~= s.subrange(i, s.len() as int));
    } else {
        assert(s.subrange(0, s.len() as int) =~= s);
    }
}

proof fn lemma_trim_end_non_ident_skip(s: Seq<char>, i: int)
    requires
        0 <= i <= s.len(),
        forall|j: int| i <= j < s.len() ==> !is_ident(s[j]),
    ensures
        trim_end_non_ident(s) == trim_end_non_ident(s.subrange(0, i)),
    decreases s.len() - i,
{
    if i < s.len() {
        let t = s.subrange(0, s.len() - 1);
        lemma_trim_end_non_ident_skip(t, i);
        assert(t.subrange(0, i) =~= s.subrange(0, i));
    } else {
        assert(s.subrange(0, s.len() as int) =~= s);
    }
}

/// Copy of `s` without leading or trailing non-identifier characters.
pub fn trim_non_ident(s: &str) -> (r: String)
    ensures
        r@ == trim_non_ident_spec(s@),
{
    let n = s.unicode_len();
    let mut i: usize = 0;
    while i < n && !is_ident_char(s.get_char(i))
        invariant
            n == s@.len(),
            i <= n,
            forall|j: int| 0 <= j < i ==> !is_ident(s@[j]),
        decreases n - i,
    {
        i += 1;
    }
    let mut j: usize = n;
    while j > i && !is_ident_char(s.get_char(j - 1))
        invariant
            n == s@.len(),
            i <= j <= n,
            forall|k: int| j <= k < n ==> !is_ident(s@[k]),
        decreases j,
    {
        j -= 1;
    }
    proof {
        lemma_trim_start_non_ident_skip(s@, i as int);
        let m = s@.subrange(i as int, n as int);
        if i < n {
            assert(m[0] == s@[i as int]);
        }
        assert(trim_start_non_ident(m) == m);
        assert(forall|k: int| j - i <= k < m.len() ==> !is_ident(m[k]));
        lemma_trim_end_non_ident_skip(m, j - i);
        assert(m.subrange(0, j - i) =~= s@.subrange(i as int, j as int));
        let t = s@.subrange(i as int, j as int);
        if j > i {
            assert(!!is_ident(t[t.len() - 1]) || trim_end_non_ident(t) == t);
        }
        assert(trim_end_non_ident(t) == t);
    }
    substring(s, i, j)
}

/// The runs of `s` between occurrences of `sep`, empty runs dropped; `cur`
/// is the run begun so far.
pub open spec fn sep_tokens_acc(s: Seq<char>, cur: Seq<char>, sep: char) -> Seq<Seq<char>>
    decreases s.len(),
{
    if s.len() == 0 {
        if cur.len() == 0 {
            Seq::empty()
        } else {
            seq![cur]
        }
    } else if s[0] == sep {
        if cur.len() == 0 {
            sep_tokens_acc(s.subrange(1, s.len() as int), Seq::empty(), sep)
        } else {
            seq![cur].add(sep_tokens_acc(s.subrange(1, s.len() as int), Seq::empty(), sep))
        }
    } else {
        sep_tokens_acc(s.subrange(1, s.len() as int), cur.push(s[0]), sep)
    }
}

/// The non-empty runs of `s` between occurrences of `sep`.
pub open spec fn sep_tokens(s: Seq<char>, sep: char) -> Seq<Seq<char>> {
    sep_tokens_acc(s, Seq::empty(), sep)
}

/// Split on a separator character, dropping empty pieces.
pub fn split_sep(s: &str, sep: char) -> (r: Vec<String>)
    ensures
        r@.map_values(|t: String| t@) == sep_tokens(s@, sep),
{
    let n = s.unicode_len();
    let mut out: Vec<String> = Vec::new();
    let mut cur = String::new();
    let mut i: usize = 0;
    proof {
        assert(s@.subrange(0, n as int) =~= s@);
        assert(out@.map_values(|t: String| t@) =~= Seq::<Seq<char>>::empty());
        assert(Seq::<Seq<char>>::empty().add(sep_tokens_acc(s@, cur@, sep)) =~= sep_tokens_acc(
            s@,
            cur@,
            sep,
        ));
        assert(cur@ =~= Seq::<char>::empty());
    }
    while i < n
        invariant
            n == s@.len(),
            i <= n,
            out@.map_values(|t: String| t@).add(
                sep_tokens_acc(s@.subrange(i as int, n as int), cur@, sep),
            ) == sep_tokens(s@, sep),
        decreases n - i,
    {
        let ghost pre = out@.map_values(|t: String| t@);
        let ghost curv = cur@;
        let ghost rem = s@.subrange(i as int, n as int);
        proof {
            assert(rem[0] == s@[i as int]);
            assert(rem.subrange(1, rem.len() as int) =~= s@.subrange(i + 1, n as int));
        }
        let c = s.get_char(i);
        if c == sep {
            if cur.as_str().unicode_len() > 0 {
                out.push(cur);
                cur = String::new();
                proof {
                    assert(cur@ =~= Seq::<char>::empty());
                    assert(out@.map_values(|t: String| t@) =~= pre.push(curv));
                    assert(sep_tokens_acc(rem, curv, sep) == seq![curv].add(
                        sep_tokens_acc(s@.subrange(i + 1, n as int), Seq::empty(), sep),
                    ));
                    assert(pre.push(curv).add(
                        sep_tokens_acc(s@.subrange(i + 1, n as int), Seq::<char>::empty(), sep),
                    ) =~= pre.add(seq![curv].add(
                        sep_tokens_acc(s@.subrange(i + 1, n as int), Seq::<char>::empty(), sep),
                    )));
                }
            } else {
                proof {
                    assert(curv =~= Seq::<char>::empty());
                    assert(sep_tokens_acc(rem, curv, sep) == sep_tokens_acc(
                        s@.subrange(i + 1, n as int),
                        Seq::<char>::empty(),
                        sep,
                    ));
                }
            }
        } else {
            push_char(&mut cur, c);
            proof {
                assert(sep_tokens_acc(rem, curv, sep) == sep_tokens_acc(
                    s@.subrange(i + 1, n as int),
                    curv.push(rem[0]),
                    sep,
                ));
            }
        }
        i += 1;
    }
    proof {
        assert(s@.subrange(i as int, n as int).len() == 0);
    }
    if cur.as_str().unicode_len() > 0 {
        let ghost pre = out@.map_values(|t: String| t@);
        let ghost curv = cur@;
        proof {
            assert(sep_tokens_acc(s@.subrange(i as int, n as int), curv, sep) == seq![curv]);
        }
        out.push(cur);
        proof {
            assert(out@.map_values(|t: String| t@) =~= pre.push(curv));
            assert(pre.push(curv) =~= pre.add(seq![curv]));
        }
    } else {
        proof {
            assert(cur@ =~= Seq::<char>::empty());
            assert(sep_tokens_acc(s@.subrange(i as int, n as int), cur@, sep) =~= Seq::<Seq<
                char,
            >>::empty());
            assert(out@.map_values(|t: String| t@).add(Seq::<Seq<char>>::empty())
                =~= out@.map_values(|t: String| t@));
        }
    }
    out
}

} // verus!
