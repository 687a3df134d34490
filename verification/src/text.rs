//! Character-level text helpers used by the graph and registry models.
//!
//! PipeWire reports every property as text.  The model compares labels
//! without regard to ASCII case, trims surrounding whitespace and reads
//! decimal numbers; all of that is done here on `char` sequences, with
//! the meaning of each operation written down as a spec function.
use vstd::prelude::*;

verus! {

/// ASCII case folding of one character, as a code point: `A`..`Z` map to
/// `a`..`z`, everything else is unchanged.
pub open spec fn ascii_fold(c: char) -> u32 {
    let v = c as u32;
    if 65 <= v <= 90 {
        (v + 32) as u32
    } else {
        v
    }
}

/// Two texts are equal when ASCII letters are compared without case.
pub open spec fn eq_fold(a: Seq<char>, b: Seq<char>) -> bool {
    &&& a.len() == b.len()
    &&& forall|i: int| 0 <= i < a.len() ==> ascii_fold(#[trigger] a[i]) == ascii_fold(b[i])
}

/// `pattern` occurs in `value` at position `start`, ignoring ASCII case.
pub open spec fn matches_at(value: Seq<char>, pattern: Seq<char>, start: int) -> bool {
    &&& 0 <= start
    &&& start + pattern.len() <= value.len()
    &&& forall|k: int|
        0 <= k < pattern.len() ==> ascii_fold(#[trigger] pattern[k]) == ascii_fold(value[start + k])
}

/// `pattern` occurs somewhere in `value`, ignoring ASCII case.  The empty
/// pattern occurs in every text.
pub open spec fn contains_fold(value: Seq<char>, pattern: Seq<char>) -> bool {
    exists|start: int| matches_at(value, pattern, start)
}

/// `prefix` starts `value`, compared exactly.
pub open spec fn has_prefix(value: Seq<char>, prefix: Seq<char>) -> bool {
    prefix.len() <= value.len() && value.take(prefix.len() as int) == prefix
}

/// The Unicode `White_Space` characters, which `str::trim` removes.
pub open spec fn is_space(c: char) -> bool {
    let v = c as u32;
    ||| 9 <= v <= 13
    ||| v == 32
    ||| v == 0x85
    ||| v == 0xA0
    ||| v == 0x1680
    ||| 0x2000 <= v <= 0x200A
    ||| v == 0x2028
    ||| v == 0x2029
    ||| v == 0x202F
    ||| v == 0x205F
    ||| v == 0x3000
}

/// `s` without its leading whitespace.
pub open spec fn trim_start(s: Seq<char>) -> Seq<char>
    decreases s.len(),
{
    if s.len() > 0 && is_space(s[0]) {
        trim_start(s.drop_first())
    } else {
        s
    }
}

/// `s` without its trailing whitespace.
pub open spec fn trim_end(s: Seq<char>) -> Seq<char>
    decreases s.len(),
{
    if s.len() > 0 && is_space(s.last()) {
        trim_end(s.drop_last())
    } else {
        s
    }
}

/// `s` without surrounding whitespace.
pub open spec fn trim(s: Seq<char>) -> Seq<char> {
    trim_end(trim_start(s))
}

/// The value of an ASCII decimal digit.
pub open spec fn digit_value(c: char) -> int {
    (c as u32) - 48
}

pub open spec fn is_digit(c: char) -> bool {
    48 <= (c as u32) <= 57
}

/// The number written by a sequence of decimal digits.
pub open spec fn digits_value(d: Seq<char>) -> nat
    decreases d.len(),
{
    if d.len() == 0 {
        0
    } else {
        (digits_value(d.drop_last()) * 10 + digit_value(d.last())) as nat
    }
}

/// The digits of an unsigned literal: the text after an optional `+`.
pub open spec fn literal_digits(s: Seq<char>) -> Seq<char> {
    if s.len() > 0 && s[0] == '+' {
        s.drop_first()
    } else {
        s
    }
}

/// What `str::parse` accepts for an unsigned integer: an optional `+`,
/// then at least one decimal digit.  The result is the written number,
/// before any check of its range.
pub open spec fn unsigned_literal(s: Seq<char>) -> Option<nat> {
    let digits = literal_digits(s);
    if digits.len() > 0 && forall|i: int| 0 <= i < digits.len() ==> is_digit(#[trigger] digits[i]) {
        Some(digits_value(digits))
    } else {
        None
    }
}

/// What `s.parse::<u32>()` gives, as an option.
pub open spec fn parse_u32_spec(s: Seq<char>) -> Option<u32> {
    match unsigned_literal(s) {
        Some(v) => if v <= u32::MAX {
            Some(v as u32)
        } else {
            None
        },
        None => None,
    }
}

/// What `s.parse::<u8>()` gives, as an option.
pub open spec fn parse_u8_spec(s: Seq<char>) -> Option<u8> {
    match unsigned_literal(s) {
        Some(v) => if v <= u8::MAX {
            Some(v as u8)
        } else {
            None
        },
        None => None,
    }
}

/// What `s.parse::<u64>()` gives, as an option.
pub open spec fn parse_u64_spec(s: Seq<char>) -> Option<u64> {
    match unsigned_literal(s) {
        Some(v) => if v <= u64::MAX {
            Some(v as u64)
        } else {
            None
        },
        None => None,
    }
}

/// The ASCII digit for a value below ten.
pub open spec fn digit_char(d: nat) -> char {
    ((48 + d) as u32) as char
}

/// The shortest decimal representation of `n`.
pub open spec fn decimal(n: nat) -> Seq<char>
    decreases n,
{
    if n < 10 {
        seq![digit_char(n)]
    } else {
        decimal(n / 10).push(digit_char(n % 10))
    }
}

/// The text of an optional string.
pub open spec fn opt_view(o: Option<String>) -> Option<Seq<char>> {
    match o {
        Some(s) => Some(s@),
        None => None,
    }
}

/// The text of an optional string slice.
pub open spec fn opt_str_view(o: Option<&str>) -> Option<Seq<char>> {
    match o {
        Some(s) => Some(s@),
        None => None,
    }
}

/// The text `node#<id>` by which an unnamed node is known.
pub open spec fn node_token_spec(id: nat) -> Seq<char> {
    seq!['n', 'o', 'd', 'e', '#'] + decimal(id)
}

/// The characters of `s`, in order.
pub fn chars_of(s: &str) -> (r: Vec<char>)
    ensures
        r@ == s@,
{
    let mut out: Vec<char> = Vec::new();
    for c in it: s.chars()
        invariant
            out@ == it.seq().take(it.index() as int),
            it.seq() == s@,
    {
        out.push(c);
    }
    out
}

/// Builds a `String` by collecting characters with std's
/// `FromIterator<char>`; the contract claims that the string holds exactly
/// those characters, in order.
#[verifier::external_body]
pub(crate) fn string_from_chars(chars: &[char]) -> (s: String)
    ensures
        s@ == chars@,
{
    chars.iter().collect()
}

/// The decimal digit for a value below ten.
fn digit_of(d: u64) -> (c: char)
    requires
        d < 10,
    ensures
        c == digit_char(d as nat),
{
    let digits = ['0', '1', '2', '3', '4', '5', '6', '7', '8', '9'];
    proof {
        assert(digit_char(0) == '0' && digit_char(1) == '1' && digit_char(2) == '2' && digit_char(3)
            == '3' && digit_char(4) == '4');
        assert(digit_char(5) == '5' && digit_char(6) == '6' && digit_char(7) == '7' && digit_char(8)
            == '8' && digit_char(9) == '9');
    }
    digits[d as usize]
}

/// Appends the decimal digits of `n` to `out`.
fn push_decimal(out: &mut Vec<char>, n: u64)
    ensures
        final(out)@ == old(out)@ + decimal(n as nat),
    decreases n,
{
    if n >= 10 {
        push_decimal(out, n / 10);
    }
    let c = digit_of(n % 10);
    out.push(c);
    proof {
        if n < 10 {
            assert(decimal(n as nat) =~= seq![c]);
        } else {
            assert(decimal(n as nat) == decimal((n / 10) as nat).push(c));
        }
        assert(final(out)@ =~= old(out)@ + decimal(n as nat));
    }
}

/// The decimal text of a `u32`, without leading zeros.
pub(crate) fn u32_to_text(n: u32) -> (s: String)
    ensures
        s@ == decimal(n as nat),
{
    u64_to_text(n as u64)
}

/// The decimal text of a `u64`, without leading zeros.
pub(crate) fn u64_to_text(n: u64) -> (s: String)
    ensures
        s@ == decimal(n as nat),
{
    let mut digits: Vec<char> = Vec::new();
    push_decimal(&mut digits, n);
    proof {
        assert(digits@ =~= decimal(n as nat));
    }
    string_from_chars(digits.as_slice())
}

/// A copy of an optional string.
pub fn copy_opt_string(o: &Option<String>) -> (r: Option<String>)
    ensures
        r == *o,
        opt_view(r) == opt_view(*o),
{
    match o {
        Some(s) => Some(s.clone()),
        None => None,
    }
}

/// Whether two optional strings hold the same text.
pub fn opt_text_eq(a: &Option<String>, b: &Option<String>) -> (r: bool)
    ensures
        r == (opt_view(*a) == opt_view(*b)),
{
    match (a, b) {
        (Some(x), Some(y)) => *x == *y,
        (None, None) => true,
        _ => false,
    }
}

/// An owned optional string from an optional string slice.
pub fn opt_to_owned(o: Option<&str>) -> (r: Option<String>)
    ensures
        opt_view(r) == opt_str_view(o),
{
    match o {
        Some(s) => Some(s.to_owned()),
        None => None,
    }
}

/// The text `node#<id>`.
pub fn node_token_text(id: u32) -> (r: String)
    ensures
        r@ == node_token_spec(id as nat),
{
    let digits = u32_to_text(id);
    let digits = chars_of(digits.as_str());
    let mut out: Vec<char> = Vec::new();
    out.push('n');
    out.push('o');
    out.push('d');
    out.push('e');
    out.push('#');
    let mut k: usize = 0;
    while k < digits.len()
        invariant
            k <= digits@.len(),
            digits@ == decimal(id as nat),
            out@ == seq!['n', 'o', 'd', 'e', '#'] + digits@.take(k as int),
        decreases digits@.len() - k,
    {
        out.push(digits[k]);
        proof {
            assert(digits@.take(k + 1) =~= digits@.take(k as int).push(digits@[k as int]));
        }
        k += 1;
    }
    proof {
        assert(digits@.take(digits@.len() as int) =~= digits@);
    }
    string_from_chars(out.as_slice())
}

/// An optional string slice of an optional string.
pub fn opt_str(value: &Option<String>) -> (r: Option<&str>)
    ensures
        opt_str_view(r) == opt_view(*value),
{
    match value {
        Some(v) => Some(v.as_str()),
        None => None,
    }
}

/// Appends the characters `s` to `out`.
pub fn push_chars(out: &mut Vec<char>, s: &[char])
    ensures
        final(out)@ == old(out)@ + s@,
{
    let ghost start = out@;
    let mut k: usize = 0;
    while k < s.len()
        invariant
            k <= s@.len(),
            out@ == start + s@.take(k as int),
        decreases s@.len() - k,
    {
        out.push(s[k]);
        proof {
            assert(s@.take(k + 1) =~= s@.take(k as int).push(s@[k as int]));
            assert(start + s@.take(k + 1) =~= (start + s@.take(k as int)).push(s@[k as int]));
        }
        k += 1;
    }
    proof {
        assert(s@.take(s@.len() as int) =~= s@);
    }
}

/// Whether the text `s` equals the characters `lit` ignoring ASCII case.
pub fn str_eq_fold(s: &str, lit: &[char]) -> (r: bool)
    ensures
        r == eq_fold(s@, lit@),
{
    let c = chars_of(s);
    chars_eq_fold(c.as_slice(), lit)
}

/// Whether the text `s` contains the characters `lit` ignoring ASCII case.
pub fn str_contains_fold(s: &str, lit: &[char]) -> (r: bool)
    ensures
        r == contains_fold(s@, lit@),
{
    let c = chars_of(s);
    chars_contains_fold(c.as_slice(), lit)
}

/// Whether the text `s` equals the characters `lit` exactly.
pub fn str_eq_chars(s: &str, lit: &[char]) -> (r: bool)
    ensures
        r == (s@ == lit@),
{
    let c = chars_of(s);
    if c.len() != lit.len() {
        return false;
    }
    let mut k: usize = 0;
    while k < c.len()
        invariant
            c@.len() == lit@.len(),
            c@ == s@,
            k <= c@.len(),
            forall|j: int| 0 <= j < k ==> c@[j] == lit@[j],
        decreases c@.len() - k,
    {
        if c[k] != lit[k] {
            proof {
                assert(c@[k as int] != lit@[k as int]);
                assert(c@ != lit@);
                assert(s@ != lit@);
            }
            return false;
        }
        k += 1;
    }
    proof {
        assert(c@ =~= lit@);
    }
    true
}

/// ASCII case folding of one character.
pub fn fold_char(c: char) -> (r: u32)
    ensures
        r == ascii_fold(c),
{
    let v = c as u32;
    if 65 <= v && v <= 90 {
        v + 32
    } else {
        v
    }
}

/// Compares two character sequences without regard to ASCII case.
pub fn chars_eq_fold(a: &[char], b: &[char]) -> (r: bool)
    ensures
        r == eq_fold(a@, b@),
{
    if a.len() != b.len() {
        return false;
    }
    let mut i: usize = 0;
    while i < a.len()
        invariant
            a@.len() == b@.len(),
            i <= a@.len(),
            forall|k: int| 0 <= k < i ==> ascii_fold(#[trigger] a@[k]) == ascii_fold(b@[k]),
        decreases a@.len() - i,
    {
        if fold_char(a[i]) != fold_char(b[i]) {
            return false;
        }
        i += 1;
    }
    true
}

/// `str::eq_ignore_ascii_case` on two texts.
pub fn eq_ignore_ascii_case(a: &str, b: &str) -> (r: bool)
    ensures
        r == eq_fold(a@, b@),
{
    let a = chars_of(a);
    let b = chars_of(b);
    chars_eq_fold(a.as_slice(), b.as_slice())
}

/// Whether `pattern` occurs in `value` at `start`, ignoring ASCII case.
fn window_matches(value: &[char], pattern: &[char], start: usize) -> (r: bool)
    requires
        start + pattern@.len() <= value@.len(),
    ensures
        r == matches_at(value@, pattern@, start as int),
{
    let vlen = value.len();
    let mut k: usize = 0;
    while k < pattern.len()
        invariant
            vlen == value@.len(),
            start + pattern@.len() <= value@.len(),
            k <= pattern@.len(),
            forall|j: int|
                0 <= j < k ==> ascii_fold(#[trigger] pattern@[j]) == ascii_fold(value@[start + j]),
        decreases pattern@.len() - k,
    {
        if fold_char(pattern[k]) != fold_char(value[start + k]) {
            return false;
        }
        k += 1;
    }
    true
}

/// Whether `pattern` occurs in `value`, ignoring ASCII case.
pub fn chars_contains_fold(value: &[char], pattern: &[char]) -> (r: bool)
    ensures
        r == contains_fold(value@, pattern@),
{
    if pattern.len() > value.len() {
        return false;
    }
    let last = value.len() - pattern.len();
    let mut start: usize = 0;
    loop
        invariant
            last == value@.len() - pattern@.len(),
            start <= last,
            forall|s: int| 0 <= s < start ==> !matches_at(value@, pattern@, s),
        decreases last - start,
    {
        if window_matches(value, pattern, start) {
            return true;
        }
        if start == last {
            return false;
        }
        start += 1;
    }
}

/// Whether `pattern` occurs in the text `value`, ignoring ASCII case.
pub fn contains_ignore_ascii_case(value: &str, pattern: &str) -> (r: bool)
    ensures
        r == contains_fold(value@, pattern@),
{
    let v = chars_of(value);
    let p = chars_of(pattern);
    chars_contains_fold(v.as_slice(), p.as_slice())
}

pub fn is_space_char(c: char) -> (r: bool)
    ensures
        r == is_space(c),
{
    let v = c as u32;
    (9 <= v && v <= 13) || v == 32 || v == 0x85 || v == 0xA0 || v == 0x1680 || (0x2000 <= v
        && v <= 0x200A) || v == 0x2028 || v == 0x2029 || v == 0x202F || v == 0x205F || v == 0x3000
}

proof fn lemma_trim_start_skip(s: Seq<char>, i: int)
    requires
        0 <= i <= s.len(),
        forall|k: int| 0 <= k < i ==> is_space(#[trigger] s[k]),
    ensures
        trim_start(s) == trim_start(s.subrange(i, s.len() as int)),
    decreases i,
{
    if i > 0 {
        assert(is_space(s[0]));
        let t = s.drop_first();
        assert forall|k: int| 0 <= k < i - 1 implies is_space(#[trigger] t[k]) by {
            assert(t[k] == s[k + 1]);
        }
        lemma_trim_start_skip(t, i - 1);
        assert(t.subrange(i - 1, t.len() as int) =~= s.subrange(i, s.len() as int));
    } else {
        assert(s.subrange(0, s.len() as int) =~= s);
    }
}

proof fn lemma_trim_end_cut(s: Seq<char>, j: int)
    requires
        0 <= j <= s.len(),
        forall|k: int| j <= k < s.len() ==> is_space(#[trigger] s[k]),
    ensures
        trim_end(s) == trim_end(s.subrange(0, j)),
    decreases s.len() - j,
{
    if j < s.len() {
        assert(is_space(s.last()));
        let t = s.drop_last();
        assert forall|k: int| j <= k < t.len() implies is_space(#[trigger] t[k]) by {
            assert(t[k] == s[k]);
        }
        lemma_trim_end_cut(t, j);
        assert(t.subrange(0, j) =~= s.subrange(0, j));
    } else {
        assert(s.subrange(0, j) =~= s);
    }
}

/// `str::trim`: the characters of `s` without surrounding whitespace.
pub fn trim_chars(s: &[char]) -> (r: Vec<char>)
    ensures
        r@ == trim(s@),
{
    let n = s.len();
    let mut i: usize = 0;
    while i < n && is_space_char(s[i])
        invariant
            n == s@.len(),
            i <= n,
            forall|k: int| 0 <= k < i ==> is_space(#[trigger] s@[k]),
        decreases n - i,
    {
        i += 1;
    }
    let ghost rest = s@.subrange(i as int, n as int);
    proof {
        lemma_trim_start_skip(s@, i as int);
        if i < n {
            assert(rest[0] == s@[i as int]);
        }
        assert(trim_start(rest) == rest);
    }
    let mut j: usize = n;
    while j > i && is_space_char(s[j - 1])
        invariant
            n == s@.len(),
            i <= j <= n,
            forall|k: int| j <= k < n ==> is_space(#[trigger] s@[k]),
        decreases j,
    {
        j -= 1;
    }
    proof {
        let rj = (j - i) as int;
        assert forall|k: int| rj <= k < rest.len() implies is_space(#[trigger] rest[k]) by {
            assert(rest[k] == s@[k + i]);
        }
        lemma_trim_end_cut(rest, rj);
        let cut = rest.subrange(0, rj);
        if rj > 0 {
            assert(cut.last() == s@[j - 1]);
        }
        assert(trim_end(cut) == cut);
        assert(cut =~= s@.subrange(i as int, j as int));
    }
    let mut out: Vec<char> = Vec::new();
    let mut k: usize = i;
    while k < j
        invariant
            n == s@.len(),
            i <= k <= j <= n,
            out@ == s@.subrange(i as int, k as int),
        decreases j - k,
    {
        out.push(s[k]);
        proof {
            assert(out@ =~= s@.subrange(i as int, k + 1));
        }
        k += 1;
    }
    out
}

proof fn lemma_not_literal(s: Seq<char>, j: int)
    requires
        0 <= j < literal_digits(s).len(),
        !is_digit(literal_digits(s)[j]),
    ensures
        unsigned_literal(s) is None,
{
}

proof fn lemma_digits_value_push(d: Seq<char>, c: char)
    requires
        is_digit(c),
    ensures
        digits_value(d.push(c)) == digits_value(d) * 10 + digit_value(c),
{
    assert(d.push(c).drop_last() =~= d);
}

/// Reads an unsigned decimal literal; numbers above `u64::MAX` come back
/// as `u64::MAX + 1`.
fn literal_clipped(s: &[char]) -> (r: Option<u128>)
    ensures
        r is Some <==> unsigned_literal(s@) is Some,
        r matches Some(v) ==> {
            &&& v <= u64::MAX + 1
            &&& (unsigned_literal(s@)->0 <= u64::MAX ==> v == unsigned_literal(s@)->0)
            &&& (unsigned_literal(s@)->0 > u64::MAX ==> v == u64::MAX + 1)
        },
{
    let n = s.len();
    let start: usize = if n > 0 && s[0] == '+' {
        1
    } else {
        0
    };
    let ghost digits = literal_digits(s@);
    proof {
        assert(digits =~= s@.subrange(start as int, n as int));
    }
    if start >= n {
        return None;
    }
    let cap: u128 = 18446744073709551616;
    let mut acc: u128 = 0;
    let mut k: usize = start;
    while k < n
        invariant
            n == s@.len(),
            start <= k <= n,
            digits =~= s@.subrange(start as int, n as int),
            digits == literal_digits(s@),
            forall|j: int| start <= j < k ==> is_digit(#[trigger] s@[j]),
            acc <= cap,
            cap == u64::MAX + 1,
            acc == if digits_value(s@.subrange(start as int, k as int)) <= u64::MAX {
                digits_value(s@.subrange(start as int, k as int)) as int
            } else {
                cap as int
            },
        decreases n - k,
    {
        let c = s[k];
        let v = c as u32;
        if v < 48 || v > 57 {
            proof {
                assert(!is_digit(c));
                assert(k - start < digits.len());
                assert(digits[k - start] == c);
                assert(!is_digit(digits[k - start]));
                lemma_not_literal(s@, (k - start) as int);
            }
            return None;
        }
        let ghost before = s@.subrange(start as int, k as int);
        proof {
            assert(s@.subrange(start as int, k + 1) =~= before.push(c));
            lemma_digits_value_push(before, c);
        }
        let d = (v - 48) as u128;
        if acc >= cap {
            proof {
                assert(digits_value(before) > u64::MAX);
                assert(digits_value(before) * 10 + d >= digits_value(before)) by (nonlinear_arith)
                    requires d >= 0;
            }
            acc = cap;
        } else {
            let next = acc * 10 + d;
            acc = if next > 18446744073709551615 {
                cap
            } else {
                next
            };
        }
        k += 1;
    }
    proof {
        assert(s@.subrange(start as int, n as int) =~= digits);
        assert forall|j: int| 0 <= j < digits.len() implies is_digit(#[trigger] digits[j]) by {
            assert(digits[j] == s@[j + start]);
        }
    }
    Some(acc)
}

/// `str::parse::<u32>` on a character sequence.
pub fn parse_u32(s: &[char]) -> (r: Option<u32>)
    ensures
        r == parse_u32_spec(s@),
{
    match literal_clipped(s) {
        Some(v) => if v <= 4294967295 {
            Some(v as u32)
        } else {
            None
        },
        None => None,
    }
}

/// `str::parse::<u64>` on a character sequence.
pub fn parse_u64(s: &[char]) -> (r: Option<u64>)
    ensures
        r == parse_u64_spec(s@),
{
    match literal_clipped(s) {
        Some(v) => if v <= 18446744073709551615 {
            Some(v as u64)
        } else {
            None
        },
        None => None,
    }
}

/// `str::parse::<u8>` on a character sequence.
pub fn parse_u8(s: &[char]) -> (r: Option<u8>)
    ensures
        r == parse_u8_spec(s@),
{
    match literal_clipped(s) {
        Some(v) => if v <= 255 {
            Some(v as u8)
        } else {
            None
        },
        None => None,
    }
}

/// The characters from `from` on.
pub fn chars_from(s: &[char], from: usize) -> (r: Vec<char>)
    requires
        from <= s@.len(),
    ensures
        r@ == s@.subrange(from as int, s@.len() as int),
{
    let mut out: Vec<char> = Vec::new();
    let mut k = from;
    while k < s.len()
        invariant
            from <= k <= s@.len(),
            out@ == s@.subrange(from as int, k as int),
        decreases s@.len() - k,
    {
        out.push(s[k]);
        proof {
            assert(out@ =~= s@.subrange(from as int, k + 1));
        }
        k += 1;
    }
    out
}

/// Whether `prefix` starts `value`, compared exactly.
pub fn chars_have_prefix(value: &[char], prefix: &[char]) -> (r: bool)
    ensures
        r == has_prefix(value@, prefix@),
{
    if prefix.len() > value.len() {
        return false;
    }
    let mut k: usize = 0;
    while k < prefix.len()
        invariant
            prefix@.len() <= value@.len(),
            k <= prefix@.len(),
            forall|j: int| 0 <= j < k ==> prefix@[j] == value@[j],
        decreases prefix@.len() - k,
    {
        if prefix[k] != value[k] {
            proof {
                assert(value@.take(prefix@.len() as int)[k as int] != prefix@[k as int]);
            }
            return false;
        }
        k += 1;
    }
    proof {
        assert(value@.take(prefix@.len() as int) =~= prefix@);
    }
    true
}

/// The decimal text of `n` is a literal that reads back as `n`.
pub proof fn lemma_decimal_reads_back(n: nat)
    ensures
        decimal(n).len() > 0,
        decimal(n)[0] != '+',
        unsigned_literal(decimal(n)) == Some(n),
    decreases n,
{
    let d = decimal(n);
    if n < 10 {
        assert(d.drop_last() =~= Seq::<char>::empty());
        assert(digit_value(digit_char(n)) == n);
        assert(is_digit(d[0]));
        assert(d[0] != '+');
        assert(literal_digits(d) == d);
        lemma_digits_value_push(Seq::<char>::empty(), digit_char(n));
        assert(d =~= Seq::<char>::empty().push(digit_char(n)));
        assert(digits_value(d) == n);
        assert forall|i: int| 0 <= i < d.len() implies is_digit(#[trigger] d[i]) by {}
    } else {
        lemma_decimal_reads_back(n / 10);
        let h = decimal(n / 10);
        let c = digit_char((n % 10) as nat);
        assert(is_digit(c));
        lemma_digits_value_push(h, c);
        assert(d == h.push(c));
        assert(d[0] == h[0]);
        assert(literal_digits(h) == h);
        assert forall|i: int| 0 <= i < d.len() implies is_digit(#[trigger] d[i]) by {
            if i < h.len() {
                assert(d[i] == h[i]);
                assert(literal_digits(h)[i] == h[i]);
            }
        }
        assert(digit_value(c) == n % 10);
        assert(digits_value(d) == (n / 10) * 10 + n % 10);
        assert(literal_digits(d) == d);
    }
}

/// The id in a `node#<id>` token reads back as that id.
pub proof fn lemma_node_token_reads_back(id: nat)
    ensures
        node_token_spec(id).skip(5) == decimal(id),
        node_token_spec(id).take(5) == seq!['n', 'o', 'd', 'e', '#'],
        node_token_spec(id).len() >= 5,
{
    assert(node_token_spec(id).skip(5) =~= decimal(id));
    assert(node_token_spec(id).take(5) =~= seq!['n', 'o', 'd', 'e', '#']);
}

} // verus!
