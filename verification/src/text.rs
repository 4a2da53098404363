//! Small verified text helpers: comparison, trimming, decimal numbers,
//! and the bridge between bytes and text.

use vstd::prelude::*;
use vstd::string::StrSliceExecFns;
use vstd::string::StringSliceAdditionalSpecFns;

verus! {

/// What UTF-8 decoding of a byte string returns: `None` when the bytes are
/// not valid UTF-8.
pub uninterp spec fn utf8_decode_of(bytes: Seq<u8>) -> Option<Seq<char>>;

/// Relies on `String::from_utf8`: it succeeds exactly on valid UTF-8, the
/// characters depend on the bytes alone, and bytes that are all ASCII
/// decode to the characters of the same code points.
#[verifier::external_body]
pub fn string_from_utf8(bytes: Vec<u8>) -> (r: Result<String, ()>)
    ensures
        match r {
            Ok(s) => utf8_decode_of(bytes@) == Some(s@) && ((forall|i: int|
                0 <= i < bytes@.len() ==> bytes@[i] < 128) ==> s@ == bytes@.map_values(
                |b: u8| b as char,
            )),
            Err(()) => utf8_decode_of(bytes@) is None && (exists|i: int|
                0 <= i < bytes@.len() && bytes@[i] >= 128),
        },
{
    String::from_utf8(bytes).map_err(|_| ())
}

/// Relies on `str::as_bytes`: a string's UTF-8 bytes decode back to its
/// own characters.
#[verifier::external_body]
pub fn str_to_bytes(s: &str) -> (r: Vec<u8>)
    ensures
        r@ == s.spec_bytes(),
        utf8_decode_of(r@) == Some(s@),
{
    s.as_bytes().to_vec()
}

/// What `str::to_lowercase` returns: it depends on the characters alone.
pub uninterp spec fn lower_of(s: Seq<char>) -> Seq<char>;

/// Relies on `str::to_lowercase`: the result depends on the characters
/// alone.
#[verifier::external_body]
pub fn to_lowercase(s: &str) -> (r: String)
    ensures
        r@ == lower_of(s@),
{
    s.to_lowercase()
}

/// Whether two string slices hold the same characters.
pub fn str_eq(a: &str, b: &str) -> (r: bool)
    ensures
        r == (a@ == b@),
{
    let a_len = a.unicode_len();
    let b_len = b.unicode_len();
    if a_len != b_len {
        return false;
    }
    let mut i: usize = 0;
    while i < a_len
        invariant
            0 <= i <= a_len,
            a_len == a@.len(),
            a_len == b@.len(),
            forall|j: int| 0 <= j < i ==> a@[j] == b@[j],
        decreases a_len - i,
    {
        if a.get_char(i) != b.get_char(i) {
            return false;
        }
        i = i + 1;
    }
    proof {
        assert(a@ =~= b@);
    }
    true
}

/// Whether `s` starts with `prefix`.
pub open spec fn spec_starts_with(s: Seq<char>, prefix: Seq<char>) -> bool {
    s.len() >= prefix.len() && s.subrange(0, prefix.len() as int) == prefix
}

/// Whether a string starts with the given prefix.
pub fn str_starts_with(s: &str, prefix: &str) -> (r: bool)
    ensures
        r == spec_starts_with(s@, prefix@),
{
    let s_len = s.unicode_len();
    let p_len = prefix.unicode_len();
    if s_len < p_len {
        return false;
    }
    let mut i: usize = 0;
    while i < p_len
        invariant
            0 <= i <= p_len,
            p_len == prefix@.len(),
            s_len == s@.len(),
            s_len >= p_len,
            forall|j: int| 0 <= j < i ==> s@[j] == prefix@[j],
        decreases p_len - i,
    {
        if s.get_char(i) != prefix.get_char(i) {
            return false;
        }
        i = i + 1;
    }
    proof {
        assert(s@.subrange(0, p_len as int) =~= prefix@);
    }
    true
}

/// The characters that count as whitespace when trimming, after the
/// Unicode `White_Space` property that `str::trim` uses.
pub open spec fn spec_is_whitespace(c: char) -> bool {
    ||| c == ' '
    ||| c == '\t'
    ||| c == '\n'
    ||| c == '\u{b}'
    ||| c == '\u{c}'
    ||| c == '\r'
    ||| c == '\u{85}'
    ||| c == '\u{a0}'
    ||| c == '\u{1680}'
    ||| ('\u{2000}' <= c && c <= '\u{200a}')
    ||| c == '\u{2028}'
    ||| c == '\u{2029}'
    ||| c == '\u{202f}'
    ||| c == '\u{205f}'
    ||| c == '\u{3000}'
}

/// Whether the character counts as whitespace when trimming.
pub fn is_whitespace_char(c: char) -> (r: bool)
    ensures
        r == spec_is_whitespace(c),
{
    c == ' ' || c == '\t' || c == '\n' || c == '\u{b}' || c == '\u{c}' || c == '\r'
        || c == '\u{85}' || c == '\u{a0}' || c == '\u{1680}'
        || ('\u{2000}' <= c && c <= '\u{200a}') || c == '\u{2028}' || c == '\u{2029}'
        || c == '\u{202f}' || c == '\u{205f}' || c == '\u{3000}'
}

/// The string without its leading whitespace.
pub open spec fn spec_trim_front(s: Seq<char>) -> Seq<char>
    decreases s.len(),
{
    if s.len() == 0 {
        s
    } else if spec_is_whitespace(s[0]) {
        spec_trim_front(s.subrange(1, s.len() as int))
    } else {
        s
    }
}

/// The string without its trailing whitespace.
pub open spec fn spec_trim_back(s: Seq<char>) -> Seq<char>
    decreases s.len(),
{
    if s.len() == 0 {
        s
    } else if spec_is_whitespace(s[s.len() - 1]) {
        spec_trim_back(s.subrange(0, s.len() - 1))
    } else {
        s
    }
}

/// The string without leading and trailing whitespace.
pub open spec fn spec_trim(s: Seq<char>) -> Seq<char> {
    spec_trim_back(spec_trim_front(s))
}

proof fn lemma_trim_front_at(s: Seq<char>, k: int)
    requires
        0 <= k <= s.len(),
        forall|j: int| 0 <= j < k ==> spec_is_whitespace(s[j]),
        k == s.len() || !spec_is_whitespace(s[k]),
    ensures
        spec_trim_front(s) == s.subrange(k, s.len() as int),
    decreases k,
{
    if k == 0 {
        assert(s.subrange(0, s.len() as int) =~= s);
    } else {
        let tail = s.subrange(1, s.len() as int);
        lemma_trim_front_at(tail, k - 1);
        assert(tail.subrange(k - 1, tail.len() as int) =~= s.subrange(k, s.len() as int));
    }
}

proof fn lemma_trim_back_at(s: Seq<char>, k: int)
    requires
        0 <= k <= s.len(),
        forall|j: int| k <= j < s.len() ==> spec_is_whitespace(s[j]),
        k == 0 || !spec_is_whitespace(s[k - 1]),
    ensures
        spec_trim_back(s) == s.subrange(0, k),
    decreases s.len(),
{
    if k == s.len() {
        if s.len() == 0 {
            assert(s.subrange(0, 0) =~= s);
        } else {
            assert(s.subrange(0, s.len() as int) =~= s);
        }
    } else {
        let front = s.subrange(0, s.len() - 1);
        assert(spec_is_whitespace(s[s.len() - 1]));
        lemma_trim_back_at(front, k);
        assert(front.subrange(0, k) =~= s.subrange(0, k));
    }
}

/// The string slice without leading and trailing whitespace.
pub fn trim_str<'a>(s: &'a str) -> (r: &'a str)
    ensures
        r@ == spec_trim(s@),
{
    let len = s.unicode_len();
    let mut start: usize = 0;
    loop
        invariant
            0 <= start <= len,
            len == s@.len(),
            forall|j: int| 0 <= j < start ==> spec_is_whitespace(s@[j]),
        ensures
            0 <= start <= len,
            forall|j: int| 0 <= j < start ==> spec_is_whitespace(s@[j]),
            start == len || !spec_is_whitespace(s@[start as int]),
        decreases len - start,
    {
        if start == len {
            break;
        }
        if !is_whitespace_char(s.get_char(start)) {
            break;
        }
        start = start + 1;
    }
    let mut end: usize = len;
    loop
        invariant
            start <= end <= len,
            len == s@.len(),
            forall|j: int| 0 <= j < start ==> spec_is_whitespace(s@[j]),
            start == len || !spec_is_whitespace(s@[start as int]),
            forall|j: int| end <= j < len ==> spec_is_whitespace(s@[j]),
        ensures
            start <= end <= len,
            forall|j: int| end <= j < len ==> spec_is_whitespace(s@[j]),
            end == start || !spec_is_whitespace(s@[end - 1]),
        decreases end,
    {
        if end == start {
            break;
        }
        if !is_whitespace_char(s.get_char(end - 1)) {
            break;
        }
        end = end - 1;
    }
    proof {
        lemma_trim_front_at(s@, start as int);
        let mid = s@.subrange(start as int, len as int);
        if end == start && start < len {
            assert(!spec_is_whitespace(s@[start as int]));
            assert(spec_is_whitespace(s@[start as int]));
        }
        lemma_trim_back_at(mid, end - start);
        assert(mid.subrange(0, end - start) =~= s@.subrange(start as int, end as int));
    }
    s.substring_char(start, end)
}

/// The decimal digits of a number, as ASCII bytes, most significant first.
pub open spec fn spec_u64_dec_bytes(n: u64) -> Seq<u8>
    decreases n,
{
    if n < 10 {
        seq![(48 + n) as u8]
    } else {
        spec_u64_dec_bytes(n / 10).push((48 + n % 10) as u8)
    }
}

/// The decimal form of a number, as characters.
pub open spec fn spec_u64_string(n: u64) -> Seq<char> {
    spec_u64_dec_bytes(n).map_values(|b: u8| b as char)
}

proof fn lemma_u64_dec_bytes_ascii(n: u64)
    ensures
        forall|i: int|
            0 <= i < spec_u64_dec_bytes(n).len() ==> 48 <= #[trigger] spec_u64_dec_bytes(n)[i]
                <= 57,
    decreases n,
{
    if n < 10 {
        assert(spec_u64_dec_bytes(n)[0] == (48 + n) as u8);
    } else {
        lemma_u64_dec_bytes_ascii(n / 10);
        let pre = spec_u64_dec_bytes(n / 10);
        assert forall|i: int| 0 <= i < spec_u64_dec_bytes(n).len() implies 48
            <= #[trigger] spec_u64_dec_bytes(n)[i] <= 57 by {
            if i < pre.len() {
                assert(spec_u64_dec_bytes(n)[i] == pre[i]);
            } else {
                assert(spec_u64_dec_bytes(n)[i] == (48 + n % 10) as u8);
            }
        }
    }
}

fn push_u64_digits(n: u64, out: &mut Vec<u8>)
    ensures
        final(out)@ == old(out)@ + spec_u64_dec_bytes(n),
    decreases n,
{
    if n >= 10 {
        push_u64_digits(n / 10, out);
    }
    let d: u8 = (n % 10) as u8 + 48;
    out.push(d);
    proof {
        if n < 10 {
            assert(old(out)@ + spec_u64_dec_bytes(n) =~= out@);
        } else {
            assert(old(out)@ + spec_u64_dec_bytes(n) =~= out@);
        }
    }
}

/// The decimal form of a number.
pub fn u64_to_string(n: u64) -> (r: String)
    ensures
        r@ == spec_u64_string(n),
{
    let mut out: Vec<u8> = Vec::new();
    push_u64_digits(n, &mut out);
    proof {
        lemma_u64_dec_bytes_ascii(n);
    }
    match string_from_utf8(out) {
        Ok(s) => s,
        Err(()) => {
            proof {
                assert(false);
            }
            String::new()
        },
    }
}

/// Whether every character is a decimal digit.
pub open spec fn spec_all_digits(s: Seq<char>) -> bool {
    forall|i: int| 0 <= i < s.len() ==> '0' <= s[i] && s[i] <= '9'
}

/// The value of a string of decimal digits, most significant first.
pub open spec fn spec_dec_value(s: Seq<char>) -> nat
    decreases s.len(),
{
    if s.len() == 0 {
        0
    } else {
        spec_dec_value(s.drop_last()) * 10 + ((s.last() as int - '0' as int) as nat)
    }
}

/// Parse a string as a decimal number, `None` when it is empty, holds a
/// non-digit, or does not fit in a `usize`.
pub fn parse_usize(s: &str) -> (r: Option<usize>)
    ensures
        match r {
            Some(n) => s@.len() > 0 && spec_all_digits(s@) && n == spec_dec_value(s@),
            None => s@.len() == 0 || !spec_all_digits(s@) || spec_dec_value(s@) > usize::MAX,
        },
{
    let len = s.unicode_len();
    if len == 0 {
        return None;
    }
    let mut value: usize = 0;
    let mut i: usize = 0;
    while i < len
        invariant
            0 <= i <= len,
            len == s@.len(),
            forall|j: int| 0 <= j < i ==> '0' <= s@[j] && s@[j] <= '9',
            value == spec_dec_value(s@.subrange(0, i as int)),
        decreases len - i,
    {
        let c = s.get_char(i);
        if c < '0' || c > '9' {
            return None;
        }
        let d: usize = (c as u8 - 48) as usize;
        if value > (usize::MAX - d) / 10 {
            proof {
                lemma_dec_value_overflow(s@, i as int, value as nat, d as int);
            }
            return None;
        }
        value = value * 10 + d;
        proof {
            assert(s@.subrange(0, i + 1).drop_last() =~= s@.subrange(0, i as int));
        }
        i = i + 1;
    }
    proof {
        assert(s@.subrange(0, len as int) =~= s@);
    }
    Some(value)
}

proof fn lemma_dec_value_monotone(s: Seq<char>, i: int)
    requires
        0 <= i <= s.len(),
    ensures
        spec_dec_value(s) >= spec_dec_value(s.subrange(0, i)),
    decreases s.len() - i,
{
    if i < s.len() {
        lemma_dec_value_monotone(s, i + 1);
        assert(s.subrange(0, i + 1).drop_last() =~= s.subrange(0, i));
        assert(spec_dec_value(s.subrange(0, i + 1)) >= spec_dec_value(s.subrange(0, i)));
    } else {
        assert(s.subrange(0, i) =~= s);
    }
}

proof fn lemma_dec_value_overflow(s: Seq<char>, i: int, value: nat, d: int)
    requires
        0 <= i < s.len(),
        '0' <= s[i] && s[i] <= '9',
        value == spec_dec_value(s.subrange(0, i)),
        d == s[i] as int - '0' as int,
        value * 10 + d > usize::MAX,
    ensures
        spec_dec_value(s) > usize::MAX,
{
    let ext = s.subrange(0, i + 1);
    assert(ext.drop_last() =~= s.subrange(0, i));
    assert(ext.last() == s[i]);
    assert(spec_dec_value(ext) == value * 10 + d);
    lemma_dec_value_monotone(s, i + 1);
}

} // verus!
