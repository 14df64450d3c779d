//! Byte- and text-level helpers shared by the canisters: decimal numbers (as the std
//! `FromStr` and `Display` of unsigned integers read and write them), ASCII matching,
//! and building strings and byte bodies from literals.
use vstd::prelude::*;
use vstd::string::StrSliceExecFns;

verus! {

/// `b` is an ASCII decimal digit.
pub open spec fn is_digit(b: u8) -> bool {
    48 <= b <= 57
}

/// The value of a run of decimal digits.
pub open spec fn digits_value(s: Seq<u8>) -> nat
    decreases s.len(),
{
    if s.len() == 0 {
        0
    } else {
        digits_value(s.drop_last()) * 10 + (s.last() - 48) as nat
    }
}

/// `s` is a non-empty run of decimal digits.
pub open spec fn all_digits(s: Seq<u8>) -> bool {
    s.len() > 0 && forall|i: int| 0 <= i < s.len() ==> is_digit(#[trigger] s[i])
}

/// What `str::parse` gives for an unsigned integer type whose largest value is `max`:
/// an optional `+`, then one or more decimal digits, with a value that fits.
pub open spec fn parse_unsigned(s: Seq<u8>, max: nat) -> Option<nat> {
    let t = if s.len() > 0 && s[0] == 43u8 {
        s.drop_first()
    } else {
        s
    };
    if all_digits(t) && digits_value(t) <= max {
        Some(digits_value(t))
    } else {
        None
    }
}

proof fn lemma_digits_value_prefix(s: Seq<u8>, i: int)
    requires
        0 <= i <= s.len(),
        forall|k: int| 0 <= k < s.len() ==> is_digit(#[trigger] s[k]),
    ensures
        digits_value(s.subrange(0, i)) <= digits_value(s),
    decreases s.len() - i,
{
    if i < s.len() {
        lemma_digits_value_prefix(s, i + 1);
        assert(s.subrange(0, i + 1).drop_last() =~= s.subrange(0, i));
    } else {
        assert(s.subrange(0, i) =~= s);
    }
}

/// Parses the digits `s[start..]` as `str::parse` does for a type whose largest value is
/// `max`.
fn parse_digits_from(s: &[u8], start: usize, max: u64) -> (r: Option<u64>)
    requires
        start <= s@.len(),
        max >= 9,
    ensures
        r == (if all_digits(s@.subrange(start as int, s@.len() as int)) && digits_value(
            s@.subrange(start as int, s@.len() as int),
        ) <= max {
            Some(digits_value(s@.subrange(start as int, s@.len() as int)) as u64)
        } else {
            None::<u64>
        }),
{
    let ghost t = s@.subrange(start as int, s@.len() as int);
    if start == s.len() {
        return None;
    }
    let mut v: u64 = 0;
    let mut i: usize = start;
    while i < s.len()
        invariant
            start < s@.len(),
            start <= i <= s@.len(),
            t == s@.subrange(start as int, s@.len() as int),
            forall|k: int| start <= k < i ==> is_digit(#[trigger] s@[k]),
            v == digits_value(s@.subrange(start as int, i as int)),
            v <= max,
            max >= 9,
        decreases s@.len() - i,
    {
        let b = s[i];
        if b < 48 || b > 57 {
            assert(!is_digit(t[i - start]));
            return None;
        }
        let d = (b - 48) as u64;
        assert(s@.subrange(start as int, i + 1).drop_last() =~= s@.subrange(
            start as int,
            i as int,
        ));
        if v > (max - d) / 10 {
            proof {
                assert(v * 10 + d > max);
                assert(digits_value(s@.subrange(start as int, i + 1)) == v * 10 + d);
                if all_digits(t) {
                    lemma_digits_value_prefix(t, i - start + 1);
                    assert(t.subrange(0, i - start + 1) =~= s@.subrange(start as int, i + 1));
                }
            }
            return None;
        }
        v = v * 10 + d;
        i = i + 1;
    }
    proof {
        assert(s@.subrange(start as int, i as int) =~= t);
    }
    Some(v)
}

/// `str::parse::<u32>` on the bytes of a string.
pub fn parse_u32(s: &[u8]) -> (r: Option<u32>)
    ensures
        r == (match parse_unsigned(s@, u32::MAX as nat) {
            Some(v) => Some(v as u32),
            None => None::<u32>,
        }),
{
    let start: usize = if s.len() > 0 && s[0] == 43u8 { 1 } else { 0 };
    proof {
        if s@.len() > 0 && s@[0] == 43u8 {
            assert(s@.subrange(1, s@.len() as int) =~= s@.drop_first());
        } else {
            assert(s@.subrange(0, s@.len() as int) =~= s@);
        }
    }
    match parse_digits_from(s, start, u32::MAX as u64) {
        Some(v) => Some(v as u32),
        None => None,
    }
}

/// `str::parse::<u64>` on the bytes of a string.
pub fn parse_u64(s: &[u8]) -> (r: Option<u64>)
    ensures
        r == (match parse_unsigned(s@, u64::MAX as nat) {
            Some(v) => Some(v as u64),
            None => None::<u64>,
        }),
{
    let start: usize = if s.len() > 0 && s[0] == 43u8 { 1 } else { 0 };
    proof {
        if s@.len() > 0 && s@[0] == 43u8 {
            assert(s@.subrange(1, s@.len() as int) =~= s@.drop_first());
        } else {
            assert(s@.subrange(0, s@.len() as int) =~= s@);
        }
    }
    parse_digits_from(s, start, u64::MAX)
}

/// `str::parse::<usize>` on the bytes of a string.
pub fn parse_usize(s: &[u8]) -> (r: Option<usize>)
    ensures
        r == (match parse_unsigned(s@, usize::MAX as nat) {
            Some(v) => Some(v as usize),
            None => None::<usize>,
        }),
{
    let start: usize = if s.len() > 0 && s[0] == 43u8 { 1 } else { 0 };
    proof {
        if s@.len() > 0 && s@[0] == 43u8 {
            assert(s@.subrange(1, s@.len() as int) =~= s@.drop_first());
        } else {
            assert(s@.subrange(0, s@.len() as int) =~= s@);
        }
    }
    match parse_digits_from(s, start, usize::MAX as u64) {
        Some(v) => Some(v as usize),
        None => None,
    }
}

/// The character of a decimal digit.
pub open spec fn digit_char(d: nat) -> char {
    ((48 + d) as u32) as char
}

/// The decimal writing of `n`, as `Display` writes an unsigned integer.
pub open spec fn decimal(n: nat) -> Seq<char>
    decreases n,
{
    if n < 10 {
        seq![digit_char(n)]
    } else {
        decimal(n / 10) + seq![digit_char(n % 10)]
    }
}

fn digit_str(d: u64) -> (r: &'static str)
    requires
        d < 10,
    ensures
        r@ == seq![digit_char(d as nat)],
{
    proof {
        reveal_strlit("0");
        reveal_strlit("1");
        reveal_strlit("2");
        reveal_strlit("3");
        reveal_strlit("4");
        reveal_strlit("5");
        reveal_strlit("6");
        reveal_strlit("7");
        reveal_strlit("8");
        reveal_strlit("9");
    }
    let r = match d {
        0 => "0",
        1 => "1",
        2 => "2",
        3 => "3",
        4 => "4",
        5 => "5",
        6 => "6",
        7 => "7",
        8 => "8",
        _ => "9",
    };
    assert(r@ =~= seq![digit_char(d as nat)]);
    r
}

/// The decimal writing of `n`.
pub fn decimal_string(n: u64) -> (r: String)
    ensures
        r@ == decimal(n as nat),
    decreases n,
{
    if n < 10 {
        String::from_str(digit_str(n))
    } else {
        let mut s = decimal_string(n / 10);
        s.append(digit_str(n % 10));
        s
    }
}

/// A string holding the text of `s`.
pub fn owned(s: &str) -> (r: String)
    ensures
        r@ == s@,
{
    String::from_str(s)
}

/// The UTF-8 bytes of `s`.
pub fn utf8_bytes(s: &str) -> (r: Vec<u8>)
    ensures
        r@ == vstd::utf8::encode_utf8(s@),
{
    vstd::slice::slice_to_vec(s.as_bytes())
}

/// The number of bytes of the UTF-8 encoding of `s`.
pub fn byte_len(s: &str) -> (r: usize)
    ensures
        r == vstd::utf8::encode_utf8(s@).len(),
{
    s.as_bytes().len()
}

/// `a` followed by `b`.
pub fn joined(a: &str, b: &str) -> (r: String)
    ensures
        r@ == a@ + b@,
{
    let mut s = String::from_str(a);
    s.append(b);
    s
}

/// The characters of `s` after its last `c` (all of `s` when it holds none), as
/// `s.rsplit(c).next()` gives them.
pub open spec fn after_last(s: Seq<char>, c: char) -> Seq<char>
    decreases s.len(),
{
    if s.len() == 0 {
        s
    } else if s.last() == c {
        Seq::empty()
    } else {
        after_last(s.drop_last(), c).push(s.last())
    }
}

/// The characters of `s` before its first `c` (all of `s` when it holds none), as
/// `s.split(c).next()` gives them.
pub open spec fn before_first(s: Seq<char>, c: char) -> Seq<char>
    decreases s.len(),
{
    if s.len() == 0 {
        s
    } else if s[0] == c {
        Seq::empty()
    } else {
        seq![s[0]] + before_first(s.drop_first(), c)
    }
}

/// The characters of `s` after its first `c`, where it holds one.
pub open spec fn after_first(s: Seq<char>, c: char) -> Seq<char> {
    s.subrange(before_first(s, c).len() as int + 1, s.len() as int)
}

/// `s` begins with `p`.
pub open spec fn starts(s: Seq<char>, p: Seq<char>) -> bool {
    p.len() <= s.len() && s.subrange(0, p.len() as int) == p
}

proof fn lemma_after_last(s: Seq<char>, c: char, k: int)
    requires
        -1 <= k < s.len(),
        k >= 0 ==> s[k] == c,
        forall|j: int| k < j < s.len() ==> s[j] != c,
    ensures
        after_last(s, c) == s.subrange(k + 1, s.len() as int),
    decreases s.len(),
{
    if s.len() == 0 {
    } else if k == s.len() - 1 {
    } else {
        lemma_after_last(s.drop_last(), c, k);
        assert(s.subrange(k + 1, s.len() as int) =~= s.drop_last().subrange(
            k + 1,
            s.len() - 1,
        ).push(s.last()));
    }
}

proof fn lemma_before_first(s: Seq<char>, c: char, k: int)
    requires
        0 <= k <= s.len(),
        k < s.len() ==> s[k] == c,
        forall|j: int| 0 <= j < k ==> s[j] != c,
    ensures
        before_first(s, c) == s.subrange(0, k),
    decreases s.len(),
{
    if s.len() == 0 {
    } else if k == 0 {
    } else {
        lemma_before_first(s.drop_first(), c, k - 1);
        assert(s.subrange(0, k) =~= seq![s[0]] + s.drop_first().subrange(0, k - 1));
    }
}

/// The position of the first `c` in `s`, counted in characters.
pub fn first_index_of(s: &str, c: char) -> (r: Option<usize>)
    ensures
        r is None ==> !s@.contains(c) && before_first(s@, c) == s@,
        r matches Some(k) ==> k < s@.len() && s@[k as int] == c && before_first(s@, c)
            == s@.subrange(0, k as int) && forall|j: int| 0 <= j < k ==> s@[j] != c,
{
    let n = s.unicode_len();
    let mut i: usize = 0;
    while i < n
        invariant
            n == s@.len(),
            i <= n,
            forall|j: int| 0 <= j < i ==> s@[j] != c,
        decreases n - i,
    {
        if s.get_char(i) == c {
            proof {
                lemma_before_first(s@, c, i as int);
            }
            return Some(i);
        }
        i = i + 1;
    }
    proof {
        lemma_before_first(s@, c, n as int);
        assert(s@.subrange(0, n as int) =~= s@);
    }
    None
}

/// The position of the last `c` in `s`, counted in characters.
pub fn last_index_of(s: &str, c: char) -> (r: Option<usize>)
    ensures
        r is None ==> !s@.contains(c) && after_last(s@, c) == s@,
        r matches Some(k) ==> k < s@.len() && s@[k as int] == c && after_last(s@, c)
            == s@.subrange(k + 1, s@.len() as int),
{
    let n = s.unicode_len();
    let mut i: usize = n;
    while i > 0
        invariant
            n == s@.len(),
            i <= n,
            forall|j: int| i <= j < n ==> s@[j] != c,
        decreases i,
    {
        if s.get_char(i - 1) == c {
            proof {
                lemma_after_last(s@, c, i - 1);
            }
            return Some(i - 1);
        }
        i = i - 1;
    }
    proof {
        lemma_after_last(s@, c, -1);
        assert(s@.subrange(0, n as int) =~= s@);
    }
    None
}

/// The characters of `s` after its last `c`.
pub fn after_last_char(s: &str, c: char) -> (r: &str)
    ensures
        r@ == after_last(s@, c),
{
    let n = s.unicode_len();
    match last_index_of(s, c) {
        Some(k) => s.substring_char(k + 1, n),
        None => {
            let r = s.substring_char(0, n);
            assert(r@ =~= s@);
            r
        },
    }
}

/// The characters of `s` before its first `c`.
pub fn before_first_char(s: &str, c: char) -> (r: &str)
    ensures
        r@ == before_first(s@, c),
{
    let n = s.unicode_len();
    match first_index_of(s, c) {
        Some(k) => s.substring_char(0, k),
        None => {
            let r = s.substring_char(0, n);
            assert(r@ =~= s@);
            r
        },
    }
}

/// Whether `s` begins with `p`.
pub fn starts_with_text(s: &str, p: &str) -> (r: bool)
    ensures
        r == starts(s@, p@),
{
    let n = s.unicode_len();
    let m = p.unicode_len();
    if m > n {
        return false;
    }
    let mut i: usize = 0;
    while i < m
        invariant
            n == s@.len(),
            m == p@.len(),
            m <= n,
            i <= m,
            forall|j: int| 0 <= j < i ==> s@[j] == p@[j],
        decreases m - i,
    {
        if s.get_char(i) != p.get_char(i) {
            assert(s@.subrange(0, m as int)[i as int] != p@[i as int]);
            return false;
        }
        i = i + 1;
    }
    assert(s@.subrange(0, m as int) =~= p@);
    true
}

/// Whether `a` and `b` are the same text.
pub fn same_text(a: &str, b: &str) -> (r: bool)
    ensures
        r == (a@ == b@),
{
    let n = a.unicode_len();
    let m = b.unicode_len();
    if n != m {
        return false;
    }
    let mut i: usize = 0;
    while i < n
        invariant
            n == a@.len(),
            m == b@.len(),
            n == m,
            i <= n,
            forall|j: int| 0 <= j < i ==> a@[j] == b@[j],
        decreases n - i,
    {
        if a.get_char(i) != b.get_char(i) {
            return false;
        }
        i = i + 1;
    }
    assert(a@ =~= b@);
    true
}

/// The bytes of characters below 256.
pub open spec fn char_bytes(s: Seq<char>) -> Seq<u8> {
    s.map_values(|c: char| c as u8)
}

proof fn lemma_decimal_digits(n: nat)
    ensures
        decimal(n).len() > 0,
        forall|i: int| 0 <= i < decimal(n).len() ==> '0' <= #[trigger] decimal(n)[i] <= '9',
        all_digits(char_bytes(decimal(n))),
        digits_value(char_bytes(decimal(n))) == n,
    decreases n,
{
    broadcast use vstd::utf8::char_u32_cast;

    if n < 10 {
        let c = digit_char(n);
        assert(c as u32 == 48 + n);
        assert(decimal(n) =~= seq![c]);
        assert(char_bytes(decimal(n)) =~= seq![(48 + n) as u8]);
        assert(char_bytes(decimal(n)).drop_last() =~= Seq::<u8>::empty());
        assert(digits_value(char_bytes(decimal(n))) == digits_value(Seq::<u8>::empty()) * 10 + n);
    } else {
        lemma_decimal_digits(n / 10);
        let d = decimal(n / 10);
        let c = digit_char(n % 10);
        assert(c as u32 == 48 + n % 10);
        assert(decimal(n) == d + seq![c]);
        let b = char_bytes(decimal(n));
        assert(b.drop_last() =~= char_bytes(d));
        assert(b.last() == (48 + n % 10) as u8);
        assert(digits_value(b) == digits_value(b.drop_last()) * 10 + (b.last() - 48) as nat);
        assert((n / 10) * 10 + n % 10 == n);
        assert forall|i: int| 0 <= i < decimal(n).len() implies '0' <= #[trigger] decimal(n)[i] <= '9' by {
            if i < d.len() {
                assert(decimal(n)[i] == d[i]);
            }
        }
        assert forall|i: int| 0 <= i < b.len() implies is_digit(#[trigger] b[i]) by {
            if i < d.len() {
                assert(b[i] == char_bytes(d)[i]);
            }
        }
    }
}

/// A number written in decimal reads back as the same number: `str::parse` of what
/// `Display` writes gives the value back, for every value that fits the type.
pub proof fn law_decimal_parses_back(n: nat, max: nat)
    requires
        n <= max,
    ensures
        parse_unsigned(vstd::utf8::encode_utf8(decimal(n)), max) == Some(n),
{
    lemma_decimal_digits(n);
    let s = decimal(n);
    assert(vstd::utf8::is_ascii_chars(s)) by {
        assert forall|i: int| 0 <= i < s.len() implies '\0' <= #[trigger] s[i] <= '\u{7f}' by {
            assert('0' <= s[i] <= '9');
        }
    }
    vstd::utf8::is_ascii_chars_encode_utf8(s);
    assert(vstd::utf8::encode_utf8(s) =~= char_bytes(s));
    assert(char_bytes(s)[0] != 43u8);
}

} // verus!
