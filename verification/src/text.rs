//! Character and string helpers shared by the whole crate.
//!
//! BR identifiers are ASCII and case-insensitive, so everything here is
//! stated over `Seq<char>` views with a simple ASCII lowering function.

use vstd::prelude::*;
use vstd::string::*;

verus! {

/// ASCII lowering of one character; everything outside `A`..`Z` is unchanged.
pub open spec fn lower_char(c: char) -> char {
    match c {
        'A' => 'a',
        'B' => 'b',
        'C' => 'c',
        'D' => 'd',
        'E' => 'e',
        'F' => 'f',
        'G' => 'g',
        'H' => 'h',
        'I' => 'i',
        'J' => 'j',
        'K' => 'k',
        'L' => 'l',
        'M' => 'm',
        'N' => 'n',
        'O' => 'o',
        'P' => 'p',
        'Q' => 'q',
        'R' => 'r',
        'S' => 's',
        'T' => 't',
        'U' => 'u',
        'V' => 'v',
        'W' => 'w',
        'X' => 'x',
        'Y' => 'y',
        'Z' => 'z',
        _ => c,
    }
}

pub open spec fn lower_seq(s: Seq<char>) -> Seq<char> {
    s.map_values(|c: char| lower_char(c))
}

pub fn lower_char_exec(c: char) -> (r: char)
    ensures
        r == lower_char(c),
{
    match c {
        'A' => 'a',
        'B' => 'b',
        'C' => 'c',
        'D' => 'd',
        'E' => 'e',
        'F' => 'f',
        'G' => 'g',
        'H' => 'h',
        'I' => 'i',
        'J' => 'j',
        'K' => 'k',
        'L' => 'l',
        'M' => 'm',
        'N' => 'n',
        'O' => 'o',
        'P' => 'p',
        'Q' => 'q',
        'R' => 'r',
        'S' => 's',
        'T' => 't',
        'U' => 'u',
        'V' => 'v',
        'W' => 'w',
        'X' => 'x',
        'Y' => 'y',
        'Z' => 'z',
        _ => c,
    }
}

/// Relies on `String::push`: appends exactly one character.
#[verifier::external_body]
pub fn push_char(s: &mut String, c: char)
    ensures
        final(s)@ == old(s)@.push(c),
{
    s.push(c)
}

/// A `String` holding the single character `c`.
pub fn char_string(c: char) -> (s: String)
    ensures
        s@ == seq![c],
{
    let mut s = String::new();
    push_char(&mut s, c);
    proof {
        assert(s@ =~= seq![c]);
    }
    s
}

/// Case-insensitive equality of two strings under ASCII lowering.
pub fn eq_ignore_case(a: &str, b: &str) -> (r: bool)
    ensures
        r == (lower_seq(a@) == lower_seq(b@)),
{
    let a_len = a.unicode_len();
    let b_len = b.unicode_len();
    if a_len != b_len {
        proof {
            assert(lower_seq(a@).len() == a@.len());
            assert(lower_seq(b@).len() == b@.len());
        }
        return false;
    }
    let mut i: usize = 0;
    while i < a_len
        invariant
            a_len == a@.len(),
            b_len == b@.len(),
            a_len == b_len,
            i <= a_len,
            forall|k: int| 0 <= k < i ==> lower_char(a@[k]) == lower_char(b@[k]),
        decreases a_len - i,
    {
        let ca = a.get_char(i);
        let cb = b.get_char(i);
        if lower_char_exec(ca) != lower_char_exec(cb) {
            proof {
                assert(lower_seq(a@)[i as int] != lower_seq(b@)[i as int]);
            }
            return false;
        }
        i += 1;
    }
    proof {
        assert(lower_seq(a@) =~= lower_seq(b@));
    }
    true
}

/// The ASCII-lowered copy of a string.
pub fn to_lowercase(s: &str) -> (r: String)
    ensures
        r@ == lower_seq(s@),
{
    let len = s.unicode_len();
    let mut out = String::new();
    let mut i: usize = 0;
    while i < len
        invariant
            len == s@.len(),
            i <= len,
            out@ == lower_seq(s@).subrange(0, i as int),
        decreases len - i,
    {
        let c = s.get_char(i);
        push_char(&mut out, lower_char_exec(c));
        proof {
            assert(out@ =~= lower_seq(s@).subrange(0, i + 1));
        }
        i += 1;
    }
    proof {
        assert(out@ =~= lower_seq(s@));
    }
    out
}

/// Plain equality of two strings as character sequences.
pub fn str_eq(a: &str, b: &str) -> (r: bool)
    ensures
        r == (a@ == b@),
{
    let a_len = a.unicode_len();
    let b_len = b.unicode_len();
    if a_len != b_len {
        return false;
    }
    let mut i: usize = 0;
    while i < a_len
        invariant
            a_len == a@.len(),
            b_len == b@.len(),
            a_len == b_len,
            i <= a_len,
            forall|k: int| 0 <= k < i ==> a@[k] == b@[k],
        decreases a_len - i,
    {
        if a.get_char(i) != b.get_char(i) {
            return false;
        }
        i += 1;
    }
    proof {
        assert(a@ =~= b@);
    }
    true
}

/// The contents of an optional string, seen as an optional sequence.
pub open spec fn opt_view(o: Option<String>) -> Option<Seq<char>> {
    match o {
        Some(s) => Some(s@),
        None => None,
    }
}

/// A field-by-field copy of an optional string.
pub fn clone_opt_string(o: &Option<String>) -> (r: Option<String>)
    ensures
        opt_view(r) == opt_view(*o),
{
    match o {
        Some(s) => Some(s.clone()),
        None => None,
    }
}

pub open spec fn is_digit(c: char) -> bool {
    '0' <= c && c <= '9'
}

pub open spec fn digit_val(c: char) -> nat {
    ((c as int) - ('0' as int)) as nat
}

pub open spec fn all_digits(s: Seq<char>) -> bool {
    forall|i: int| 0 <= i < s.len() ==> is_digit(#[trigger] s[i])
}

/// Numeric value of a digit sequence, most significant digit first.
pub open spec fn digits_val(s: Seq<char>) -> nat
    decreases s.len(),
{
    if s.len() == 0 {
        0
    } else {
        digits_val(s.drop_last()) * 10 + digit_val(s.last())
    }
}

pub fn is_digit_exec(c: char) -> (r: bool)
    ensures
        r == is_digit(c),
{
    '0' <= c && c <= '9'
}

proof fn lemma_digits_val_prefix_le(s: Seq<char>, i: int)
    requires
        all_digits(s),
        0 <= i <= s.len(),
    ensures
        digits_val(s.subrange(0, i)) <= digits_val(s),
    decreases s.len() - i,
{
    if i < s.len() {
        let t = s.subrange(0, i + 1);
        assert(t.drop_last() =~= s.subrange(0, i));
        assert(digits_val(s.subrange(0, i)) <= digits_val(t));
        lemma_digits_val_prefix_le(s, i + 1);
        assert(s.subrange(0, s.len() as int) =~= s);
    } else {
        assert(s.subrange(0, i) =~= s);
    }
}

/// What `parse` gives for an unsigned decimal string: the value when the
/// string is non-empty, all digits and fits; `None` otherwise.
pub open spec fn spec_parse_u32(s: Seq<char>) -> Option<u32> {
    if s.len() > 0 && all_digits(s) && digits_val(s) <= u32::MAX {
        Some(digits_val(s) as u32)
    } else {
        None
    }
}

/// Parse a decimal number of digits only (no sign), rejecting overflow.
pub fn parse_u32(s: &str) -> (r: Option<u32>)
    ensures
        r == spec_parse_u32(s@),
{
    let len = s.unicode_len();
    if len == 0 {
        return None;
    }
    let mut acc: u64 = 0;
    let mut i: usize = 0;
    while i < len
        invariant
            len == s@.len(),
            0 < len,
            i <= len,
            all_digits(s@.subrange(0, i as int)),
            acc == digits_val(s@.subrange(0, i as int)),
            acc <= u32::MAX,
        decreases len - i,
    {
        let c = s.get_char(i);
        if !is_digit_exec(c) {
            return None;
        }
        let d: u64 = (c as u32 as u64) - 48;
        let next: u64 = acc * 10 + d;
        proof {
            assert(s@.subrange(0, i + 1).drop_last() =~= s@.subrange(0, i as int));
        }
        if next > 0xffff_ffff {
            proof {
                assert(all_digits(s@.subrange(0, i + 1)));
                assert(digits_val(s@.subrange(0, i + 1)) == next);
                if all_digits(s@) {
                    assert forall|k: int| 0 <= k < i + 1 implies is_digit(#[trigger] s@.subrange(0, i + 1)[k]) by {}
                    lemma_digits_val_prefix_le(s@, i + 1);
                }
            }
            return None;
        }
        acc = next;
        i += 1;
    }
    proof {
        assert(s@.subrange(0, len as int) =~= s@);
    }
    Some(acc as u32)
}

pub open spec fn digit_char(d: nat) -> char {
    if d == 0 { '0' }
    else if d == 1 { '1' }
    else if d == 2 { '2' }
    else if d == 3 { '3' }
    else if d == 4 { '4' }
    else if d == 5 { '5' }
    else if d == 6 { '6' }
    else if d == 7 { '7' }
    else if d == 8 { '8' }
    else if d == 9 { '9' }
    else { '0' }
}

/// Decimal rendering of a number, most significant digit first, no leading
/// zeros (except for the number zero itself).
pub open spec fn spec_dec(n: nat) -> Seq<char>
    decreases n,
{
    if n < 10 {
        seq![digit_char(n)]
    } else {
        spec_dec(n / 10).push(digit_char(n % 10))
    }
}

fn digit_char_exec(d: u64) -> (c: char)
    requires
        d < 10,
    ensures
        c == digit_char(d as nat),
{
    if d == 0 { '0' }
    else if d == 1 { '1' }
    else if d == 2 { '2' }
    else if d == 3 { '3' }
    else if d == 4 { '4' }
    else if d == 5 { '5' }
    else if d == 6 { '6' }
    else if d == 7 { '7' }
    else if d == 8 { '8' }
    else { '9' }
}

/// Decimal rendering of an unsigned number.
pub fn u64_to_string(n: u64) -> (s: String)
    ensures
        s@ == spec_dec(n as nat),
    decreases n,
{
    if n < 10 {
        char_string(digit_char_exec(n))
    } else {
        let mut s = u64_to_string(n / 10);
        push_char(&mut s, digit_char_exec(n % 10));
        s
    }
}

pub fn usize_to_string(n: usize) -> (s: String)
    ensures
        s@ == spec_dec(n as nat),
{
    u64_to_string(n as u64)
}

pub fn u32_to_string(n: u32) -> (s: String)
    ensures
        s@ == spec_dec(n as nat),
{
    u64_to_string(n as u64)
}

// ---------------------------------------------------------------------------
// Whitespace and trimming
// ---------------------------------------------------------------------------

pub open spec fn is_ws(c: char) -> bool {
    c == ' ' || c == '\t' || c == '\r' || c == '\n'
}

pub fn is_ws_exec(c: char) -> (r: bool)
    ensures
        r == is_ws(c),
{
    c == ' ' || c == '\t' || c == '\r' || c == '\n'
}

/// Number of leading whitespace characters.
pub open spec fn count_leading_ws(s: Seq<char>) -> int
    decreases s.len(),
{
    if s.len() == 0 {
        0
    } else if !is_ws(s[0]) {
        0
    } else {
        1 + count_leading_ws(s.drop_first())
    }
}

/// Number of trailing whitespace characters.
pub open spec fn count_trailing_ws(s: Seq<char>) -> int
    decreases s.len(),
{
    if s.len() == 0 {
        0
    } else if !is_ws(s.last()) {
        0
    } else {
        1 + count_trailing_ws(s.drop_last())
    }
}

pub proof fn lemma_leading_ws(s: Seq<char>)
    ensures
        0 <= count_leading_ws(s) <= s.len(),
        forall|i: int| 0 <= i < count_leading_ws(s) ==> is_ws(#[trigger] s[i]),
        count_leading_ws(s) < s.len() ==> !is_ws(s[count_leading_ws(s)]),
    decreases s.len(),
{
    if s.len() > 0 && is_ws(s[0]) {
        lemma_leading_ws(s.drop_first());
        assert forall|i: int| 0 <= i < count_leading_ws(s) implies is_ws(#[trigger] s[i]) by {
            if i > 0 {
                assert(s[i] == s.drop_first()[i - 1]);
            }
        }
        if count_leading_ws(s) < s.len() {
            assert(s[count_leading_ws(s)] == s.drop_first()[count_leading_ws(s.drop_first())]);
        }
    }
}

pub proof fn lemma_trailing_ws(s: Seq<char>)
    ensures
        0 <= count_trailing_ws(s) <= s.len(),
        forall|i: int| s.len() - count_trailing_ws(s) <= i < s.len() ==> is_ws(#[trigger] s[i]),
        count_trailing_ws(s) < s.len() ==> !is_ws(s[s.len() - 1 - count_trailing_ws(s)]),
    decreases s.len(),
{
    if s.len() > 0 && is_ws(s.last()) {
        lemma_trailing_ws(s.drop_last());
        assert forall|i: int| s.len() - count_trailing_ws(s) <= i < s.len() implies is_ws(
            #[trigger] s[i],
        ) by {
            if i < s.len() - 1 {
                assert(s[i] == s.drop_last()[i]);
            }
        }
    }
}

pub proof fn lemma_trim_bounds(s: Seq<char>)
    ensures
        0 <= count_leading_ws(s) <= s.len(),
        0 <= count_trailing_ws(s) <= s.len(),
        count_leading_ws(s) < s.len() ==> count_leading_ws(s) + count_trailing_ws(s) < s.len(),
{
    lemma_leading_ws(s);
    lemma_trailing_ws(s);
    let l = count_leading_ws(s);
    let t = count_trailing_ws(s);
    if l < s.len() {
        if l + t >= s.len() {
            assert(is_ws(s[l]));
        }
    }
}

/// The string without trailing whitespace.
pub open spec fn spec_trim_end(s: Seq<char>) -> Seq<char> {
    s.subrange(0, s.len() - count_trailing_ws(s))
}

/// Trim ASCII whitespace from the end.
pub fn trim_end_str<'a>(s: &'a str) -> (r: &'a str)
    ensures
        r@ == spec_trim_end(s@),
{
    proof {
        lemma_trailing_ws(s@);
    }
    let n = s.unicode_len();
    let mut b: usize = n;
    while b > 0 && is_ws_exec(s.get_char(b - 1))
        invariant
            n == s@.len(),
            b <= n,
            forall|i: int| b <= i < n ==> is_ws(#[trigger] s@[i]),
            n - b <= count_trailing_ws(s@),
        decreases b,
    {
        proof {
            lemma_trailing_ws(s@);
            if n - b + 1 > count_trailing_ws(s@) {
                assert(!is_ws(s@[s@.len() - 1 - count_trailing_ws(s@)]));
            }
        }
        b -= 1;
    }
    proof {
        lemma_trailing_ws(s@);
        assert(n - b == count_trailing_ws(s@));
    }
    let r = s.substring_char(0, b);
    proof {
        assert(r@ =~= spec_trim_end(s@));
    }
    r
}

/// The string without leading and trailing whitespace.
pub open spec fn spec_trim(s: Seq<char>) -> Seq<char> {
    let l = count_leading_ws(s);
    let t = count_trailing_ws(s);
    if l == s.len() {
        Seq::<char>::empty()
    } else {
        s.subrange(l, s.len() - t)
    }
}

/// Trim ASCII whitespace from both ends.
pub fn trim<'a>(s: &'a str) -> (r: &'a str)
    ensures
        r@ == spec_trim(s@),
{
    proof {
        lemma_trim_bounds(s@);
    }
    let n = s.unicode_len();
    let mut a: usize = 0;
    while a < n && is_ws_exec(s.get_char(a))
        invariant
            n == s@.len(),
            a <= n,
            forall|i: int| 0 <= i < a ==> is_ws(#[trigger] s@[i]),
            a <= count_leading_ws(s@),
        decreases n - a,
    {
        proof {
            lemma_leading_ws(s@);
            if a + 1 > count_leading_ws(s@) {
                assert(!is_ws(s@[count_leading_ws(s@)]));
            }
        }
        a += 1;
    }
    proof {
        lemma_leading_ws(s@);
        assert(a == count_leading_ws(s@));
    }
    if a == n {
        let r = s.substring_char(n, n);
        proof {
            assert(r@ =~= spec_trim(s@));
        }
        return r;
    }
    let mut b: usize = n;
    while b > 0 && is_ws_exec(s.get_char(b - 1))
        invariant
            n == s@.len(),
            b <= n,
            forall|i: int| b <= i < n ==> is_ws(#[trigger] s@[i]),
            n - b <= count_trailing_ws(s@),
        decreases b,
    {
        proof {
            lemma_trailing_ws(s@);
            if n - b + 1 > count_trailing_ws(s@) {
                assert(!is_ws(s@[s@.len() - 1 - count_trailing_ws(s@)]));
            }
        }
        b -= 1;
    }
    proof {
        lemma_trailing_ws(s@);
        assert(n - b == count_trailing_ws(s@));
        lemma_trim_bounds(s@);
    }
    let r = s.substring_char(a, b);
    proof {
        assert(r@ =~= spec_trim(s@));
    }
    r
}

// ---------------------------------------------------------------------------
// Searching and splitting
// ---------------------------------------------------------------------------

/// Index of the first occurrence of `c`, or `-1` when absent.
pub open spec fn spec_find(s: Seq<char>, c: char) -> int
    decreases s.len(),
{
    if s.len() == 0 {
        -1
    } else if s[0] == c {
        0
    } else {
        let r = spec_find(s.drop_first(), c);
        if r == -1 {
            -1
        } else {
            r + 1
        }
    }
}

pub proof fn lemma_find(s: Seq<char>, c: char)
    ensures
        spec_find(s, c) == -1 ==> forall|i: int| 0 <= i < s.len() ==> s[i] != c,
        spec_find(s, c) != -1 ==> {
            &&& 0 <= spec_find(s, c) < s.len()
            &&& s[spec_find(s, c)] == c
            &&& forall|i: int| 0 <= i < spec_find(s, c) ==> s[i] != c
        },
    decreases s.len(),
{
    if s.len() > 0 && s[0] != c {
        lemma_find(s.drop_first(), c);
        let r = spec_find(s.drop_first(), c);
        if r == -1 {
            assert forall|i: int| 0 <= i < s.len() implies s[i] != c by {
                if i > 0 {
                    assert(s[i] == s.drop_first()[i - 1]);
                }
            }
        } else {
            assert(s[r + 1] == s.drop_first()[r]);
            assert forall|i: int| 0 <= i < r + 1 implies s[i] != c by {
                if i > 0 {
                    assert(s[i] == s.drop_first()[i - 1]);
                }
            }
        }
    }
}

/// The first index is pinned by its characterisation.
pub proof fn lemma_find_is(s: Seq<char>, c: char, i: int)
    requires
        0 <= i < s.len(),
        s[i] == c,
        forall|j: int| 0 <= j < i ==> s[j] != c,
    ensures
        spec_find(s, c) == i,
    decreases i,
{
    if i > 0 {
        lemma_find_is(s.drop_first(), c, i - 1);
    }
}

pub proof fn lemma_find_none(s: Seq<char>, c: char)
    requires
        forall|j: int| 0 <= j < s.len() ==> s[j] != c,
    ensures
        spec_find(s, c) == -1,
    decreases s.len(),
{
    if s.len() > 0 {
        lemma_find_none(s.drop_first(), c);
    }
}

/// Scan for the first occurrence of `c` at or after `from`.
pub fn find_char_from(s: &str, c: char, from: usize) -> (r: Option<usize>)
    requires
        from <= s@.len(),
    ensures
        match r {
            Some(i) => from <= i < s@.len() && spec_find(s@.subrange(from as int, s@.len() as int), c)
                == i - from,
            None => spec_find(s@.subrange(from as int, s@.len() as int), c) == -1,
        },
{
    let n = s.unicode_len();
    let mut i: usize = from;
    while i < n
        invariant
            n == s@.len(),
            from <= i <= n,
            forall|j: int| from <= j < i ==> s@[j] != c,
        decreases n - i,
    {
        if s.get_char(i) == c {
            proof {
                let sub = s@.subrange(from as int, n as int);
                lemma_find_is(sub, c, i - from);
            }
            return Some(i);
        }
        i += 1;
    }
    proof {
        let sub = s@.subrange(from as int, n as int);
        lemma_find_none(sub, c);
    }
    None
}

/// Split on every occurrence of `sep`; always at least one part.
pub open spec fn spec_split(s: Seq<char>, sep: char) -> Seq<Seq<char>>
    decreases s.len(),
{
    let f = spec_find(s, sep);
    if f == -1 {
        seq![s]
    } else if 0 <= f < s.len() {
        seq![s.subrange(0, f)] + spec_split(s.subrange(f + 1, s.len() as int), sep)
    } else {
        seq![s]
    }
}

/// Split on the first occurrences of `sep`, into at most `n` parts.
pub open spec fn spec_splitn(s: Seq<char>, n: int, sep: char) -> Seq<Seq<char>>
    decreases s.len(), n,
{
    if n <= 1 {
        seq![s]
    } else {
        let f = spec_find(s, sep);
        if f == -1 {
            seq![s]
        } else if 0 <= f < s.len() {
            seq![s.subrange(0, f)] + spec_splitn(s.subrange(f + 1, s.len() as int), n - 1, sep)
        } else {
            seq![s]
        }
    }
}

/// The contents of a string sequence, each seen as a character sequence.
pub open spec fn strs_view(v: Seq<String>) -> Seq<Seq<char>> {
    v.map_values(|s: String| s@)
}

pub proof fn lemma_strs_push(v: Seq<String>, x: String)
    ensures
        strs_view(v.push(x)) == strs_view(v).push(x@),
{
    assert(strs_view(v.push(x)) =~= strs_view(v).push(x@));
}

/// Copy the characters of `s` between `a` and `b` into an owned string.
pub fn substring_owned(s: &str, a: usize, b: usize) -> (r: String)
    requires
        a <= b <= s@.len(),
    ensures
        r@ == s@.subrange(a as int, b as int),
{
    let piece = s.substring_char(a, b);
    let mut out = String::new();
    out.append(piece);
    proof {
        assert(out@ =~= s@.subrange(a as int, b as int));
    }
    out
}

/// Split on every occurrence of `sep`.
pub fn split_on(s: &str, sep: char) -> (r: Vec<String>)
    ensures
        strs_view(r@) == spec_split(s@, sep),
        r@.len() >= 1,
{
    let n = s.unicode_len();
    let mut out: Vec<String> = Vec::new();
    let mut start: usize = 0;
    proof {
        assert(s@.subrange(0, n as int) =~= s@);
        assert(strs_view(out@) + spec_split(s@, sep) =~= spec_split(s@, sep));
    }
    loop
        invariant
            n == s@.len(),
            start <= n,
            strs_view(out@) + spec_split(s@.subrange(start as int, n as int), sep) == spec_split(
                s@,
                sep,
            ),
        decreases n - start,
    {
        let ghost rest = s@.subrange(start as int, n as int);
        match find_char_from(s, sep, start) {
            Some(i) => {
                let piece = substring_owned(s, start, i);
                let ghost pre_out = out@;
                out.push(piece);
                proof {
                    lemma_strs_push(pre_out, out@.last());
                    assert(rest.subrange(0, i - start) =~= s@.subrange(start as int, i as int));
                    assert(rest.subrange(i - start + 1, rest.len() as int) =~= s@.subrange(
                        i + 1,
                        n as int,
                    ));
                    assert(spec_split(rest, sep) == seq![s@.subrange(start as int, i as int)]
                        + spec_split(s@.subrange(i + 1, n as int), sep));
                    assert(strs_view(out@) =~= strs_view(pre_out).push(
                        s@.subrange(start as int, i as int),
                    ));
                    assert(strs_view(out@) + spec_split(s@.subrange(i + 1, n as int), sep)
                        =~= strs_view(pre_out) + spec_split(rest, sep));
                }
                start = i + 1;
            },
            None => {
                let piece = substring_owned(s, start, n);
                let ghost pre_out = out@;
                out.push(piece);
                proof {
                    lemma_strs_push(pre_out, out@.last());
                    assert(spec_split(rest, sep) == seq![rest]);
                    assert(strs_view(out@) =~= strs_view(pre_out).push(rest));
                    assert(strs_view(out@) =~= strs_view(pre_out) + spec_split(rest, sep));
                    assert(strs_view(out@) =~= spec_split(s@, sep));
                    assert(spec_split(s@, sep).len() >= 1);
                }
                return out;
            },
        }
    }
}

/// Split on `sep` into at most `n` parts.
pub fn splitn_on(s: &str, n: usize, sep: char) -> (r: Vec<String>)
    requires
        n >= 1,
    ensures
        strs_view(r@) == spec_splitn(s@, n as int, sep),
        r@.len() >= 1,
{
    let len = s.unicode_len();
    let mut out: Vec<String> = Vec::new();
    let mut start: usize = 0;
    let mut left: usize = n;
    proof {
        assert(s@.subrange(0, len as int) =~= s@);
        assert(strs_view(out@) + spec_splitn(s@, n as int, sep) =~= spec_splitn(s@, n as int, sep));
    }
    loop
        invariant
            len == s@.len(),
            start <= len,
            left >= 1,
            strs_view(out@) + spec_splitn(s@.subrange(start as int, len as int), left as int, sep)
                == spec_splitn(s@, n as int, sep),
        decreases left,
    {
        let ghost rest = s@.subrange(start as int, len as int);
        if left == 1 {
            let piece = substring_owned(s, start, len);
            let ghost pre_out = out@;
            out.push(piece);
            proof {
                lemma_strs_push(pre_out, out@.last());
                assert(spec_splitn(rest, 1, sep) == seq![rest]);
                assert(strs_view(out@) =~= strs_view(pre_out).push(rest));
                assert(strs_view(out@) =~= strs_view(pre_out) + spec_splitn(rest, 1, sep));
                assert(strs_view(out@) =~= spec_splitn(s@, n as int, sep));
                assert(spec_splitn(s@, n as int, sep).len() >= 1);
            }
            return out;
        }
        match find_char_from(s, sep, start) {
            Some(i) => {
                let piece = substring_owned(s, start, i);
                let ghost pre_out = out@;
                out.push(piece);
                proof {
                    lemma_strs_push(pre_out, out@.last());
                    assert(rest.subrange(0, i - start) =~= s@.subrange(start as int, i as int));
                    assert(rest.subrange(i - start + 1, rest.len() as int) =~= s@.subrange(
                        i + 1,
                        len as int,
                    ));
                    assert(spec_splitn(rest, left as int, sep) == seq![
                        s@.subrange(start as int, i as int),
                    ] + spec_splitn(s@.subrange(i + 1, len as int), left - 1, sep));
                    assert(strs_view(out@) =~= strs_view(pre_out).push(
                        s@.subrange(start as int, i as int),
                    ));
                    assert(strs_view(out@) + spec_splitn(
                        s@.subrange(i + 1, len as int),
                        left - 1,
                        sep,
                    ) =~= strs_view(pre_out) + spec_splitn(rest, left as int, sep));
                }
                start = i + 1;
                left -= 1;
            },
            None => {
                let piece = substring_owned(s, start, len);
                let ghost pre_out = out@;
                out.push(piece);
                proof {
                    lemma_strs_push(pre_out, out@.last());
                    assert(spec_splitn(rest, left as int, sep) == seq![rest]);
                    assert(strs_view(out@) =~= strs_view(pre_out).push(rest));
                    assert(strs_view(out@) =~= strs_view(pre_out) + spec_splitn(
                        rest,
                        left as int,
                        sep,
                    ));
                    assert(strs_view(out@) =~= spec_splitn(s@, n as int, sep));
                    assert(spec_splitn(s@, n as int, sep).len() >= 1);
                }
                return out;
            },
        }
    }
}

/// One line as `lines` reports it: a single trailing carriage return is cut.
pub open spec fn spec_trim_cr(s: Seq<char>) -> Seq<char> {
    if s.len() > 0 && s.last() == '\r' {
        s.drop_last()
    } else {
        s
    }
}

/// The lines of a text: split on `\n`, no final empty line when the text
/// ends with a newline, each line without its trailing carriage return.
pub open spec fn spec_lines(s: Seq<char>) -> Seq<Seq<char>> {
    if s.len() == 0 {
        Seq::<Seq<char>>::empty()
    } else {
        let parts = spec_split(s, '\n');
        let kept = if s.last() == '\n' {
            parts.drop_last()
        } else {
            parts
        };
        kept.map_values(|p: Seq<char>| spec_trim_cr(p))
    }
}

/// Split a text into lines.
pub fn split_lines(s: &str) -> (r: Vec<String>)
    ensures
        strs_view(r@) == spec_lines(s@),
{
    let n = s.unicode_len();
    if n == 0 {
        let r: Vec<String> = Vec::new();
        proof {
            assert(strs_view(r@) =~= spec_lines(s@));
        }
        return r;
    }
    let parts = split_on(s, '\n');
    let ghost all_parts = spec_split(s@, '\n');
    let keep = if s.get_char(n - 1) == '\n' {
        parts.len() - 1
    } else {
        parts.len()
    };
    let ghost kept = if s@.last() == '\n' {
        all_parts.drop_last()
    } else {
        all_parts
    };
    let mut out: Vec<String> = Vec::new();
    let mut i: usize = 0;
    while i < keep
        invariant
            parts@.len() >= 1,
            strs_view(parts@) == all_parts,
            keep == kept.len(),
            kept == if all_parts.len() == keep { all_parts } else { all_parts.drop_last() },
            keep <= parts@.len(),
            i <= keep,
            out@.len() == i,
            strs_view(out@) == kept.map_values(|p: Seq<char>| spec_trim_cr(p)).subrange(
                0,
                i as int,
            ),
        decreases keep - i,
    {
        let p = &parts[i];
        let plen = p.as_str().unicode_len();
        let ghost pre_out = out@;
        proof {
            assert(kept[i as int] == all_parts[i as int]);
            assert(all_parts[i as int] == parts@[i as int]@);
        }
        if plen > 0 && p.as_str().get_char(plen - 1) == '\r' {
            let cut = substring_owned(p.as_str(), 0, plen - 1);
            out.push(cut);
            proof {
                lemma_strs_push(pre_out, out@.last());
                assert(p@.subrange(0, plen - 1) =~= p@.drop_last());
                assert(kept[i as int] == p@);
                assert(p@.last() == '\r');
                assert(out@[i as int]@ == p@.drop_last());
                assert(out@[i as int]@ == spec_trim_cr(kept[i as int]));
                assert(strs_view(out@) =~= kept.map_values(|q: Seq<char>| spec_trim_cr(q)).subrange(
                    0,
                    i + 1,
                ));
            }
        } else {
            let copied = substring_owned(p.as_str(), 0, plen);
            out.push(copied);
            proof {
                lemma_strs_push(pre_out, out@.last());
                assert(p@.subrange(0, plen as int) =~= p@);
                assert(out@[i as int]@ == spec_trim_cr(kept[i as int]));
                assert(strs_view(out@) =~= kept.map_values(|q: Seq<char>| spec_trim_cr(q)).subrange(
                    0,
                    i + 1,
                ));
            }
        }
        i += 1;
    }
    proof {
        assert(kept.map_values(|p: Seq<char>| spec_trim_cr(p)).subrange(0, keep as int)
            =~= kept.map_values(|p: Seq<char>| spec_trim_cr(p)));
        assert(strs_view(out@) == spec_lines(s@));
    }
    out
}

/// Does `s` start with `prefix`?
pub open spec fn spec_starts_with(s: Seq<char>, prefix: Seq<char>) -> bool {
    s.len() >= prefix.len() && s.subrange(0, prefix.len() as int) == prefix
}

pub fn starts_with(s: &str, prefix: &str) -> (r: bool)
    ensures
        r == spec_starts_with(s@, prefix@),
{
    let n = s.unicode_len();
    let m = prefix.unicode_len();
    if n < m {
        return false;
    }
    let head = s.substring_char(0, m);
    let r = str_eq(head, prefix);
    proof {
        assert(head@ =~= s@.subrange(0, m as int));
    }
    r
}

/// Does the ASCII-lowered `s` start with the ASCII-lowered `prefix`?
pub fn starts_with_ignore_case(s: &str, prefix: &str) -> (r: bool)
    ensures
        r == spec_starts_with(lower_seq(s@), lower_seq(prefix@)),
{
    let n = s.unicode_len();
    let m = prefix.unicode_len();
    proof {
        assert(lower_seq(s@).len() == s@.len());
        assert(lower_seq(prefix@).len() == prefix@.len());
    }
    if n < m {
        return false;
    }
    let mut i: usize = 0;
    while i < m
        invariant
            n == s@.len(),
            m == prefix@.len(),
            m <= n,
            i <= m,
            forall|k: int| 0 <= k < i ==> lower_char(s@[k]) == lower_char(prefix@[k]),
        decreases m - i,
    {
        if lower_char_exec(s.get_char(i)) != lower_char_exec(prefix.get_char(i)) {
            proof {
                assert(lower_seq(s@).subrange(0, m as int)[i as int] != lower_seq(prefix@)[i as int]);
            }
            return false;
        }
        i += 1;
    }
    proof {
        assert(lower_seq(s@).subrange(0, m as int) =~= lower_seq(prefix@));
    }
    true
}

} // verus!
