//! Character-level text helpers: whitespace trimming, word splitting,
//! decimal and hexadecimal conversions.

use vstd::prelude::*;

verus! {

// ── Conversions between `str` and characters ─────────────────────────────────

/// The characters of `s`, in order (std's `str::chars` collected).
#[verifier::external_body]
pub(crate) fn chars_of(s: &str) -> (r: Vec<char>)
    ensures
        r@ == s@,
{
    s.chars().collect()
}

/// A `String` made of the given characters (std's `FromIterator<char>`).
#[verifier::external_body]
pub(crate) fn string_of(cs: &[char]) -> (r: String)
    ensures
        r@ == cs@,
{
    cs.iter().collect()
}

/// Appends one character to a `String` (std's `String::push`).
#[verifier::external_body]
pub(crate) fn push_char(s: &mut String, c: char)
    ensures
        final(s)@ == old(s)@.push(c),
{
    s.push(c)
}

/// A fresh copy of `s` (std's `str::to_owned`).
pub fn owned(s: &str) -> (r: String)
    ensures
        r@ == s@,
{
    s.to_owned()
}

/// Appends the text of `t` to `s`.
pub fn push_str(s: &mut String, t: &str)
    ensures
        final(s)@ == old(s)@ + t@,
{
    let cs = chars_of(t);
    let ghost start = s@;
    let mut i: usize = 0;
    while i < cs.len()
        invariant
            0 <= i <= cs@.len(),
            cs@ == t@,
            s@ == start + t@.take(i as int),
        decreases cs@.len() - i,
    {
        push_char(s, cs[i]);
        proof {
            assert(t@.take(i as int + 1) =~= t@.take(i as int).push(t@[i as int]));
        }
        i = i + 1;
    }
    proof {
        assert(t@.take(cs@.len() as int) =~= t@);
    }
}

/// `a` and `b` hold the same characters.
pub fn str_eq(a: &str, b: &str) -> (r: bool)
    ensures
        r == (a@ == b@),
{
    let sa = owned(a);
    let sb = owned(b);
    sa == sb
}

// ── Whitespace ───────────────────────────────────────────────────────────────

/// Unicode `White_Space` characters, the set that `char::is_whitespace` and
/// `str::trim` use.
pub open spec fn is_ws(c: char) -> bool {
    ||| c == '\t' || c == '\n' || c == '\u{0B}' || c == '\u{0C}' || c == '\r' || c == ' '
    ||| c == '\u{85}' || c == '\u{A0}' || c == '\u{1680}'
    ||| ('\u{2000}' <= c && c <= '\u{200A}')
    ||| c == '\u{2028}' || c == '\u{2029}' || c == '\u{202F}' || c == '\u{205F}'
    ||| c == '\u{3000}'
}

pub fn char_is_ws(c: char) -> (r: bool)
    ensures
        r == is_ws(c),
{
    c == '\t' || c == '\n' || c == '\u{0B}' || c == '\u{0C}' || c == '\r' || c == ' '
        || c == '\u{85}' || c == '\u{A0}' || c == '\u{1680}' || ('\u{2000}' <= c && c
        <= '\u{200A}') || c == '\u{2028}' || c == '\u{2029}' || c == '\u{202F}' || c
        == '\u{205F}' || c == '\u{3000}'
}

/// `s` without its leading whitespace.
pub open spec fn trim_start_spec(s: Seq<char>) -> Seq<char>
    decreases s.len(),
{
    if s.len() > 0 && is_ws(s[0]) {
        trim_start_spec(s.drop_first())
    } else {
        s
    }
}

/// `s` without its trailing whitespace.
pub open spec fn trim_end_spec(s: Seq<char>) -> Seq<char>
    decreases s.len(),
{
    if s.len() > 0 && is_ws(s.last()) {
        trim_end_spec(s.drop_last())
    } else {
        s
    }
}

/// `s` without leading or trailing whitespace, as `str::trim` gives it.
pub open spec fn trim_spec(s: Seq<char>) -> Seq<char> {
    trim_end_spec(trim_start_spec(s))
}

proof fn lemma_trim_start_skip(s: Seq<char>, i: int)
    requires
        0 <= i <= s.len(),
        forall|j: int| 0 <= j < i ==> is_ws(#[trigger] s[j]),
    ensures
        trim_start_spec(s) == trim_start_spec(s.skip(i)),
    decreases i,
{
    if i > 0 {
        assert(s.drop_first().skip(i - 1) =~= s.skip(i));
        lemma_trim_start_skip(s.drop_first(), i - 1);
    } else {
        assert(s.skip(0) =~= s);
    }
}

proof fn lemma_trim_end_take(s: Seq<char>, i: int)
    requires
        0 <= i <= s.len(),
        forall|j: int| i <= j < s.len() ==> is_ws(#[trigger] s[j]),
    ensures
        trim_end_spec(s) == trim_end_spec(s.take(i)),
    decreases s.len() - i,
{
    if i < s.len() {
        assert(s.drop_last().take(i) =~= s.take(i));
        lemma_trim_end_take(s.drop_last(), i);
    } else {
        assert(s.take(i) =~= s);
    }
}

/// The characters of `s` without leading and trailing whitespace
/// (`str::trim`).
pub fn trim(s: &str) -> (r: String)
    ensures
        r@ == trim_spec(s@),
{
    let cs = chars_of(s);
    let n = cs.len();
    let mut a: usize = 0;
    while a < n && char_is_ws(cs[a])
        invariant
            0 <= a <= n,
            n == cs@.len(),
            cs@ == s@,
            forall|j: int| 0 <= j < a ==> is_ws(#[trigger] cs@[j]),
        decreases n - a,
    {
        a = a + 1;
    }
    proof {
        lemma_trim_start_skip(s@, a as int);
        if a < n {
            assert(!is_ws(s@.skip(a as int)[0]));
        }
        assert(trim_start_spec(s@.skip(a as int)) == s@.skip(a as int));
    }
    let mut b: usize = n;
    while b > a && char_is_ws(cs[b - 1])
        invariant
            a <= b <= n,
            n == cs@.len(),
            cs@ == s@,
            forall|j: int| b <= j < n ==> is_ws(#[trigger] cs@[j]),
        decreases b,
    {
        b = b - 1;
    }
    let ghost mid = s@.skip(a as int);
    proof {
        assert forall|j: int| (b - a) <= j < mid.len() implies is_ws(#[trigger] mid[j]) by {
            assert(mid[j] == s@[j + a]);
        }
        lemma_trim_end_take(mid, (b - a) as int);
        if b > a {
            assert(!is_ws(mid.take((b - a) as int).last()));
        }
        assert(trim_end_spec(mid.take((b - a) as int)) == mid.take((b - a) as int));
        assert(mid.take((b - a) as int) =~= cs@.subrange(a as int, b as int));
    }
    string_of(&cs.as_slice()[a..b])
}

// ── Prefixes, suffixes and characters ────────────────────────────────────────

/// `s` begins with `p`.
pub open spec fn has_prefix(s: Seq<char>, p: Seq<char>) -> bool {
    p.len() <= s.len() && s.take(p.len() as int) == p
}

/// `s` ends with `p`.
pub open spec fn has_suffix(s: Seq<char>, p: Seq<char>) -> bool {
    p.len() <= s.len() && s.skip(s.len() - p.len()) == p
}

fn seq_range_eq(a: &Vec<char>, off: usize, b: &Vec<char>) -> (r: bool)
    requires
        off + b@.len() <= a@.len(),
    ensures
        r == (a@.subrange(off as int, off + b@.len()) == b@),
{
    let alen = a.len();
    let mut i: usize = 0;
    while i < b.len()
        invariant
            0 <= i <= b@.len(),
            alen == a@.len(),
            off + b@.len() <= a@.len(),
            forall|j: int| 0 <= j < i ==> a@[off + j] == b@[j],
        decreases b@.len() - i,
    {
        if a[off + i] != b[i] {
            proof {
                assert(a@.subrange(off as int, off + b@.len())[i as int] != b@[i as int]);
            }
            return false;
        }
        i = i + 1;
    }
    proof {
        assert(a@.subrange(off as int, off + b@.len()) =~= b@);
    }
    true
}

/// `s` begins with `p` (`str::starts_with`).
pub fn starts_with(s: &str, p: &str) -> (r: bool)
    ensures
        r == has_prefix(s@, p@),
{
    let a = chars_of(s);
    let b = chars_of(p);
    if b.len() > a.len() {
        return false;
    }
    let r = seq_range_eq(&a, 0, &b);
    proof {
        assert(a@.subrange(0, b@.len() as int) =~= s@.take(p@.len() as int));
    }
    r
}

/// `s` ends with `p` (`str::ends_with`).
pub fn ends_with(s: &str, p: &str) -> (r: bool)
    ensures
        r == has_suffix(s@, p@),
{
    let a = chars_of(s);
    let b = chars_of(p);
    if b.len() > a.len() {
        return false;
    }
    let off = a.len() - b.len();
    let r = seq_range_eq(&a, off, &b);
    proof {
        assert(a@.subrange(off as int, off + b@.len()) =~= s@.skip(s@.len() - p@.len()));
    }
    r
}

/// Index of the first occurrence of `c` in `s`, if any.
pub open spec fn index_of(s: Seq<char>, c: char) -> Option<int>
    decreases s.len(),
{
    if s.len() == 0 {
        None
    } else if s[0] == c {
        Some(0)
    } else {
        match index_of(s.drop_first(), c) {
            Some(i) => Some(i + 1),
            None => None,
        }
    }
}

proof fn lemma_index_of(s: Seq<char>, c: char, i: int)
    requires
        0 <= i <= s.len(),
        forall|j: int| 0 <= j < i ==> s[j] != c,
    ensures
        i < s.len() && s[i] == c ==> index_of(s, c) == Some(i),
        i == s.len() ==> index_of(s, c) is None,
    decreases i,
{
    if i > 0 {
        lemma_index_of(s.drop_first(), c, i - 1);
    }
}

pub proof fn lemma_index_of_props(s: Seq<char>, c: char)
    ensures
        match index_of(s, c) {
            Some(i) => 0 <= i < s.len() && s[i] == c && forall|j: int| 0 <= j < i ==> s[j] != c,
            None => forall|j: int| 0 <= j < s.len() ==> s[j] != c,
        },
    decreases s.len(),
{
    if s.len() > 0 {
        lemma_index_of_props(s.drop_first(), c);
        if s[0] != c {
            match index_of(s.drop_first(), c) {
                Some(i) => {
                    assert forall|j: int| 0 <= j < i + 1 implies s[j] != c by {
                        if j > 0 {
                            assert(s[j] == s.drop_first()[j - 1]);
                        }
                    }
                },
                None => {
                    assert forall|j: int| 0 <= j < s.len() implies s[j] != c by {
                        if j > 0 {
                            assert(s[j] == s.drop_first()[j - 1]);
                        }
                    }
                },
            }
        }
    }
}

/// Position of the first `c` among `cs`.
pub fn find_char(cs: &Vec<char>, c: char) -> (r: Option<usize>)
    ensures
        match r {
            Some(i) => index_of(cs@, c) == Some(i as int),
            None => index_of(cs@, c) is None,
        },
{
    let mut i: usize = 0;
    while i < cs.len()
        invariant
            0 <= i <= cs@.len(),
            forall|j: int| 0 <= j < i ==> cs@[j] != c,
        decreases cs@.len() - i,
    {
        if cs[i] == c {
            proof {
                lemma_index_of(cs@, c, i as int);
            }
            return Some(i);
        }
        i = i + 1;
    }
    proof {
        lemma_index_of(cs@, c, i as int);
    }
    None
}

/// `s` holds the character `c` (`str::contains` with a `char`).
pub fn contains_char(s: &str, c: char) -> (r: bool)
    ensures
        r == s@.contains(c),
{
    let cs = chars_of(s);
    let f = find_char(&cs, c);
    proof {
        lemma_index_of_props(s@, c);
        if f is None && s@.contains(c) {
            let j = choose|j: int| 0 <= j < s@.len() && s@[j] == c;
            assert(s@[j] == c);
        }
    }
    f.is_some()
}

// ── Decimal numbers ──────────────────────────────────────────────────────────

pub open spec fn is_digit(c: char) -> bool {
    '0' <= c && c <= '9'
}

pub open spec fn digit_value(c: char) -> nat {
    (c as u32 - '0' as u32) as nat
}

pub open spec fn digit_char(d: nat) -> char
    recommends
        d < 10,
{
    ((d + '0' as u32) as u32) as char
}

/// The number that the decimal digits `d` spell.
pub open spec fn dec_value(d: Seq<char>) -> nat
    decreases d.len(),
{
    if d.len() == 0 {
        0
    } else {
        dec_value(d.drop_last()) * 10 + digit_value(d.last())
    }
}

/// The shortest decimal spelling of `n` (what `{}` formats).
pub open spec fn dec_string(n: nat) -> Seq<char>
    decreases n,
{
    if n < 10 {
        seq![digit_char(n)]
    } else {
        dec_string(n / 10).push(digit_char(n % 10))
    }
}

/// `s` without one leading `+`, if it has one.
pub open spec fn strip_plus(s: Seq<char>) -> Seq<char> {
    if s.len() > 0 && s[0] == '+' {
        s.drop_first()
    } else {
        s
    }
}

/// One or more decimal digits whose value fits in a `u64`.
pub open spec fn parse_digits_spec(d: Seq<char>) -> Option<u64> {
    if d.len() == 0 || exists|i: int| 0 <= i < d.len() && !is_digit(#[trigger] d[i]) {
        None
    } else if dec_value(d) > u64::MAX {
        None
    } else {
        Some(dec_value(d) as u64)
    }
}

/// `u64::from_str`: an optional `+`, then one or more decimal digits whose
/// value fits in a `u64`.
pub open spec fn parse_u64_spec(s: Seq<char>) -> Option<u64> {
    parse_digits_spec(strip_plus(s))
}

proof fn lemma_dec_value_monotone(d: Seq<char>, i: int)
    requires
        0 <= i <= d.len(),
    ensures
        dec_value(d.take(i)) <= dec_value(d),
    decreases d.len() - i,
{
    if i < d.len() {
        assert(d.drop_last().take(i) =~= d.take(i));
        lemma_dec_value_monotone(d.drop_last(), i);
    } else {
        assert(d.take(i) =~= d);
    }
}

/// Parses a `u64` as `str::parse::<u64>` does; `None` where it fails.
pub fn parse_u64(s: &str) -> (r: Option<u64>)
    ensures
        r == parse_u64_spec(s@),
{
    let cs = chars_of(s);
    let start: usize = if cs.len() > 0 && cs[0] == '+' {
        1
    } else {
        0
    };
    let ghost d = strip_plus(s@);
    proof {
        assert(d =~= s@.skip(start as int));
    }
    if start == cs.len() {
        return None;
    }
    let mut acc: u64 = 0;
    let mut i: usize = start;
    while i < cs.len()
        invariant
            start <= i <= cs@.len(),
            cs@ == s@,
            d == s@.skip(start as int),
            d == strip_plus(s@),
            d.len() > 0,
            acc == dec_value(d.take(i - start)),
            forall|j: int| 0 <= j < i - start ==> is_digit(#[trigger] d[j]),
        decreases cs@.len() - i,
    {
        let c = cs[i];
        if !('0' <= c && c <= '9') {
            proof {
                assert(!is_digit(d[i - start]));
            }
            return None;
        }
        let dv: u64 = (c as u32 - '0' as u32) as u64;
        proof {
            assert(d.take(i - start + 1).drop_last() =~= d.take(i - start));
            assert(d.take(i - start + 1).last() == c);
        }
        if acc > (u64::MAX - dv) / 10 {
            proof {
                assert(dec_value(d.take(i - start + 1)) > u64::MAX);
                lemma_dec_value_monotone(d, i - start + 1);
            }
            return None;
        }
        acc = acc * 10 + dv;
        i = i + 1;
    }
    proof {
        assert(d.take(d.len() as int) =~= d);
    }
    Some(acc)
}

/// The decimal spelling of `n` (`n.to_string()`).
pub fn u64_to_string(n: u64) -> (r: String)
    ensures
        r@ == dec_string(n as nat),
    decreases n,
{
    if n < 10 {
        let c = ((n as u32) + ('0' as u32)) as u8 as char;
        let mut s = String::new();
        push_char(&mut s, c);
        proof {
            assert(s@ =~= seq![digit_char(n as nat)]);
        }
        s
    } else {
        let mut s = u64_to_string(n / 10);
        let c = (((n % 10) as u32) + ('0' as u32)) as u8 as char;
        push_char(&mut s, c);
        s
    }
}

/// The decimal spelling of a signed number (`n.to_string()`).
pub open spec fn dec_string_i(n: int) -> Seq<char> {
    if n < 0 {
        seq!['-'] + dec_string((-n) as nat)
    } else {
        dec_string(n as nat)
    }
}

pub fn i64_to_string(n: i64) -> (r: String)
    ensures
        r@ == dec_string_i(n as int),
{
    if n < 0 {
        let m: u64 = (-(n as i128)) as u64;
        let mut s = String::new();
        push_char(&mut s, '-');
        let t = u64_to_string(m);
        push_str(&mut s, t.as_str());
        proof {
            assert(s@ =~= seq!['-'] + dec_string((-n) as nat));
        }
        s
    } else {
        u64_to_string(n as u64)
    }
}

// ── Hexadecimal ──────────────────────────────────────────────────────────────

pub open spec fn hex_digit(v: nat) -> char
    recommends
        v < 16,
{
    if v < 10 {
        ((v + '0' as u32) as u32) as char
    } else {
        ((v - 10 + 'a' as u32) as u32) as char
    }
}

/// Lower-case hexadecimal spelling of `b`, two digits per byte, high nibble
/// first (`hex::encode`, or `{:x}` of a digest).
pub open spec fn hex_lower(b: Seq<u8>) -> Seq<char>
    decreases b.len(),
{
    if b.len() == 0 {
        seq![]
    } else {
        hex_lower(b.drop_last()) + seq![
            hex_digit((b.last() / 16) as nat),
            hex_digit((b.last() % 16) as nat),
        ]
    }
}

pub proof fn lemma_hex_lower_len(b: Seq<u8>)
    ensures
        hex_lower(b).len() == 2 * b.len(),
    decreases b.len(),
{
    if b.len() > 0 {
        lemma_hex_lower_len(b.drop_last());
    }
}

pub proof fn lemma_hex_digit_value(v: nat)
    requires
        v < 16,
    ensures
        is_hex_char(hex_digit(v)),
        hex_char_value(hex_digit(v)) == v,
{
}

/// The two digits that `hex_lower` writes for byte `k`.
pub proof fn lemma_hex_lower_at(b: Seq<u8>, k: int)
    requires
        0 <= k < b.len(),
    ensures
        hex_lower(b)[2 * k] == hex_digit((b[k] / 16) as nat),
        hex_lower(b)[2 * k + 1] == hex_digit((b[k] % 16) as nat),
    decreases b.len(),
{
    lemma_hex_lower_len(b.drop_last());
    if k < b.len() - 1 {
        lemma_hex_lower_at(b.drop_last(), k);
    }
}

/// Decoding the lower-case hex spelling of bytes gives the bytes back.
pub proof fn law_hex_roundtrip(b: Seq<u8>)
    ensures
        hex_decode_spec(hex_lower(b)) == Some(b),
{
    let s = hex_lower(b);
    lemma_hex_lower_len(b);
    assert forall|i: int| 0 <= i < s.len() implies is_hex_char(#[trigger] s[i]) by {
        let k = i / 2;
        lemma_hex_lower_at(b, k);
        lemma_hex_digit_value((b[k] / 16) as nat);
        lemma_hex_digit_value((b[k] % 16) as nat);
        if i % 2 == 0 {
            assert(i == 2 * k);
        } else {
            assert(i == 2 * k + 1);
        }
    }
    let d = Seq::new(
        (s.len() / 2) as nat,
        |k: int| (hex_char_value(s[2 * k]) * 16 + hex_char_value(s[2 * k + 1])) as u8,
    );
    assert forall|k: int| 0 <= k < b.len() implies d[k] == b[k] by {
        lemma_hex_lower_at(b, k);
        lemma_hex_digit_value((b[k] / 16) as nat);
        lemma_hex_digit_value((b[k] % 16) as nat);
    }
    assert(d =~= b);
}

fn hex_digit_char(v: u8) -> (c: char)
    requires
        v < 16,
    ensures
        c == hex_digit(v as nat),
{
    if v < 10 {
        ((v as u32) + ('0' as u32)) as u8 as char
    } else {
        ((v as u32) - 10 + ('a' as u32)) as u8 as char
    }
}

/// Appends the lower-case hex spelling of `b` to `s`.
pub fn push_hex(s: &mut String, b: &[u8])
    ensures
        final(s)@ == old(s)@ + hex_lower(b@),
{
    let ghost start = s@;
    let mut i: usize = 0;
    while i < b.len()
        invariant
            0 <= i <= b@.len(),
            s@ == start + hex_lower(b@.take(i as int)),
        decreases b@.len() - i,
    {
        let x = b[i];
        push_char(s, hex_digit_char(x / 16));
        push_char(s, hex_digit_char(x % 16));
        proof {
            let t = b@.take(i as int + 1);
            assert(t.drop_last() =~= b@.take(i as int));
            assert(t.last() == x);
        }
        i = i + 1;
    }
    proof {
        assert(b@.take(b@.len() as int) =~= b@);
    }
}

/// Lower-case hex spelling of `b` (`hex::encode`).
pub fn to_hex(b: &[u8]) -> (r: String)
    ensures
        r@ == hex_lower(b@),
{
    let mut s = String::new();
    push_hex(&mut s, b);
    proof {
        assert(s@ =~= hex_lower(b@));
    }
    s
}

pub open spec fn is_hex_char(c: char) -> bool {
    ('0' <= c && c <= '9') || ('a' <= c && c <= 'f') || ('A' <= c && c <= 'F')
}

pub open spec fn hex_char_value(c: char) -> nat {
    if '0' <= c && c <= '9' {
        (c as u32 - '0' as u32) as nat
    } else if 'a' <= c && c <= 'f' {
        (c as u32 - 'a' as u32 + 10) as nat
    } else {
        (c as u32 - 'A' as u32 + 10) as nat
    }
}

/// `hex::decode`: succeeds exactly on an even number of hex digits (either
/// case); each pair gives one byte, high nibble first.
pub open spec fn hex_decode_spec(s: Seq<char>) -> Option<Seq<u8>> {
    if s.len() % 2 == 0 && forall|i: int| 0 <= i < s.len() ==> is_hex_char(#[trigger] s[i]) {
        Some(
            Seq::new(
                (s.len() / 2) as nat,
                |k: int| (hex_char_value(s[2 * k]) * 16 + hex_char_value(s[2 * k + 1])) as u8,
            ),
        )
    } else {
        None
    }
}

fn hex_value(c: char) -> (r: Option<u8>)
    ensures
        match r {
            Some(v) => is_hex_char(c) && v as nat == hex_char_value(c) && v < 16,
            None => !is_hex_char(c),
        },
{
    if '0' <= c && c <= '9' {
        Some(((c as u32) - ('0' as u32)) as u8)
    } else if 'a' <= c && c <= 'f' {
        Some(((c as u32) - ('a' as u32) + 10) as u8)
    } else if 'A' <= c && c <= 'F' {
        Some(((c as u32) - ('A' as u32) + 10) as u8)
    } else {
        None
    }
}

/// Decodes hexadecimal text (`hex::decode`).
pub fn hex_decode(s: &str) -> (r: Option<Vec<u8>>)
    ensures
        match r {
            Some(v) => hex_decode_spec(s@) == Some(v@),
            None => hex_decode_spec(s@) is None,
        },
{
    let cs = chars_of(s);
    let n = cs.len();
    if n % 2 != 0 {
        return None;
    }
    let mut out: Vec<u8> = Vec::new();
    let mut k: usize = 0;
    while k < n / 2
        invariant
            cs@ == s@,
            n == cs@.len(),
            n % 2 == 0,
            0 <= k <= n / 2,
            out@.len() == k,
            forall|j: int| 0 <= j < 2 * k ==> is_hex_char(#[trigger] cs@[j]),
            forall|j: int|
                0 <= j < k ==> out@[j] == (hex_char_value(cs@[2 * j]) * 16 + hex_char_value(
                    cs@[2 * j + 1],
                )) as u8,
        decreases n / 2 - k,
    {
        let hi = hex_value(cs[2 * k]);
        let lo = hex_value(cs[2 * k + 1]);
        match (hi, lo) {
            (Some(h), Some(l)) => {
                out.push(h * 16 + l);
            },
            _ => {
                proof {
                    assert(!is_hex_char(s@[2 * k as int]) || !is_hex_char(s@[2 * k as int + 1]));
                }
                return None;
            },
        }
        k = k + 1;
    }
    proof {
        let sp = Seq::new(
            (s@.len() / 2) as nat,
            |k: int| (hex_char_value(s@[2 * k]) * 16 + hex_char_value(s@[2 * k + 1])) as u8,
        );
        assert(out@ =~= sp);
    }
    Some(out)
}

} // verus!

verus! {

// ── Words ────────────────────────────────────────────────────────────────────

/// Number of leading characters of `s` that are not whitespace.
pub open spec fn word_len(s: Seq<char>) -> nat
    decreases s.len(),
{
    if s.len() == 0 || is_ws(s[0]) {
        0
    } else {
        1 + word_len(s.drop_first())
    }
}

proof fn lemma_word_len_at(s: Seq<char>, k: int)
    requires
        0 <= k <= s.len(),
        forall|q: int| 0 <= q < k ==> !is_ws(#[trigger] s[q]),
        k == s.len() || is_ws(s[k]),
    ensures
        word_len(s) == k,
    decreases k,
{
    if k > 0 {
        assert forall|q: int| 0 <= q < k - 1 implies !is_ws(#[trigger] s.drop_first()[q]) by {
            assert(s.drop_first()[q] == s[q + 1]);
        }
        lemma_word_len_at(s.drop_first(), k - 1);
    }
}

pub proof fn lemma_word_len_le(s: Seq<char>)
    ensures
        word_len(s) <= s.len(),
        s.len() > 0 && !is_ws(s[0]) ==> word_len(s) >= 1,
    decreases s.len(),
{
    if s.len() > 0 && !is_ws(s[0]) {
        lemma_word_len_le(s.drop_first());
    }
}

/// The whitespace-separated words of `s` (`str::split_whitespace`).
pub open spec fn words(s: Seq<char>) -> Seq<Seq<char>>
    decreases s.len(),
{
    if s.len() == 0 {
        Seq::empty()
    } else if is_ws(s[0]) {
        words(s.drop_first())
    } else {
        proof {
            lemma_word_len_le(s);
        }
        seq![s.take(word_len(s) as int)] + words(s.skip(word_len(s) as int))
    }
}

/// The whitespace-separated words of `s`.
pub fn split_whitespace(s: &str) -> (r: Vec<String>)
    ensures
        r@.map_values(|w: String| w@) == words(s@),
{
    let cs = chars_of(s);
    let n = cs.len();
    let mut out: Vec<String> = Vec::new();
    let mut i: usize = 0;
    proof {
        assert(s@.skip(0) =~= s@);
        assert(out@.map_values(|w: String| w@) + words(s@) =~= words(s@));
    }
    while i < n
        invariant
            0 <= i <= n,
            n == cs@.len(),
            cs@ == s@,
            out@.map_values(|w: String| w@) + words(s@.skip(i as int)) == words(s@),
        decreases n - i,
    {
        if char_is_ws(cs[i]) {
            proof {
                assert(s@.skip(i as int).drop_first() =~= s@.skip(i + 1));
            }
            i = i + 1;
        } else {
            let mut j: usize = i;
            while j < n && !char_is_ws(cs[j])
                invariant
                    i <= j <= n,
                    n == cs@.len(),
                    forall|q: int| i <= q < j ==> !is_ws(#[trigger] cs@[q]),
                decreases n - j,
            {
                j = j + 1;
            }
            let w = string_of(&cs.as_slice()[i..j]);
            proof {
                let t = s@.skip(i as int);
                assert forall|q: int| 0 <= q < j - i implies !is_ws(#[trigger] t[q]) by {
                    assert(t[q] == cs@[q + i]);
                }
                if j < n {
                    assert(t[j - i] == cs@[j as int]);
                }
                lemma_word_len_at(t, j - i);
                assert(t.take(j - i) =~= cs@.subrange(i as int, j as int));
                assert(t.skip(j - i) =~= s@.skip(j as int));
                let old_out = out@.map_values(|w: String| w@);
                assert(old_out.push(w@) + words(s@.skip(j as int)) =~= old_out + words(t));
            }
            let ghost before = out@;
            out.push(w);
            proof {
                assert(out@.map_values(|w: String| w@) =~= before.map_values(|w: String| w@).push(
                    cs@.subrange(i as int, j as int),
                ));
            }
            i = j;
        }
    }
    proof {
        assert(s@.skip(n as int) =~= Seq::<char>::empty());
        assert(out@.map_values(|w: String| w@) + Seq::<Seq<char>>::empty() =~= out@.map_values(
            |w: String| w@,
        ));
    }
    out
}

/// The part of `s` between its first and second `sep` (to the end where
/// there is no second), if `s` holds `sep` at all: the second item of
/// `str::split(sep)`.
pub open spec fn second_field(s: Seq<char>, sep: char) -> Option<Seq<char>> {
    match index_of(s, sep) {
        None => None,
        Some(i) => {
            let rest = s.skip(i + 1);
            match index_of(rest, sep) {
                Some(j) => Some(rest.take(j)),
                None => Some(rest),
            }
        },
    }
}

/// The second field of `s` split at `sep` (`s.split(sep).nth(1)`).
pub fn split_second(s: &str, sep: char) -> (r: Option<String>)
    ensures
        match r {
            Some(f) => second_field(s@, sep) == Some(f@),
            None => second_field(s@, sep) is None,
        },
{
    let cs = chars_of(s);
    let n = cs.len();
    match find_char(&cs, sep) {
        None => None,
        Some(i) => {
            proof {
                lemma_index_of_props(cs@, sep);
                assert(i < cs@.len());
            }
            let rest: Vec<char> = vstd::slice::slice_to_vec(&cs.as_slice()[i + 1..n]);
            proof {
                assert(rest@ =~= s@.skip(i + 1));
            }
            match find_char(&rest, sep) {
                Some(j) => {
                    proof {
                        lemma_index_of_props(rest@, sep);
                    }
                    let f = string_of(&rest.as_slice()[0..j]);
                    proof {
                        assert(f@ =~= rest@.take(j as int));
                    }
                    Some(f)
                },
                None => Some(string_of(rest.as_slice())),
            }
        },
    }
}

/// `s` with every leading repetition of `p` removed
/// (`str::trim_start_matches`).
pub open spec fn strip_prefixes(s: Seq<char>, p: Seq<char>) -> Seq<char>
    decreases s.len(),
{
    if p.len() > 0 && has_prefix(s, p) {
        strip_prefixes(s.skip(p.len() as int), p)
    } else {
        s
    }
}

/// `s` with every trailing repetition of `p` removed
/// (`str::trim_end_matches`).
pub open spec fn strip_suffixes(s: Seq<char>, p: Seq<char>) -> Seq<char>
    decreases s.len(),
{
    if p.len() > 0 && has_suffix(s, p) {
        strip_suffixes(s.take(s.len() - p.len()), p)
    } else {
        s
    }
}

/// Removes every leading repetition of `p`.
pub fn trim_start_matches(s: &str, p: &str) -> (r: String)
    ensures
        r@ == strip_prefixes(s@, p@),
{
    let cs = chars_of(s);
    let ps = chars_of(p);
    let n = cs.len();
    let m = ps.len();
    let mut i: usize = 0;
    proof {
        assert(s@.skip(0) =~= s@);
    }
    while m > 0 && m <= n - i && seq_range_eq(&cs, i, &ps)
        invariant
            0 <= i <= n,
            n == cs@.len(),
            m == ps@.len(),
            cs@ == s@,
            ps@ == p@,
            strip_prefixes(s@, p@) == strip_prefixes(s@.skip(i as int), p@),
        decreases n - i,
    {
        proof {
            let t = s@.skip(i as int);
            assert(t.take(m as int) =~= cs@.subrange(i as int, i + m));
            assert(t.skip(m as int) =~= s@.skip(i + m));
        }
        i = i + m;
    }
    proof {
        let t = s@.skip(i as int);
        if m > 0 && i + m <= n {
            assert(t.take(m as int) =~= cs@.subrange(i as int, i + m));
        }
    }
    string_of(&cs.as_slice()[i..n])
}

/// Removes every trailing repetition of `p`.
pub fn trim_end_matches(s: &str, p: &str) -> (r: String)
    ensures
        r@ == strip_suffixes(s@, p@),
{
    let cs = chars_of(s);
    let ps = chars_of(p);
    let n = cs.len();
    let m = ps.len();
    let mut e: usize = n;
    proof {
        assert(s@.take(n as int) =~= s@);
    }
    while m > 0 && m <= e && seq_range_eq(&cs, e - m, &ps)
        invariant
            0 <= e <= n,
            n == cs@.len(),
            m == ps@.len(),
            cs@ == s@,
            ps@ == p@,
            strip_suffixes(s@, p@) == strip_suffixes(s@.take(e as int), p@),
        decreases e,
    {
        proof {
            let t = s@.take(e as int);
            assert(t.skip(t.len() - m) =~= cs@.subrange(e - m, e as int));
            assert(t.take(t.len() - m) =~= s@.take(e - m));
        }
        e = e - m;
    }
    proof {
        let t = s@.take(e as int);
        if m > 0 && m <= e {
            assert(t.skip(t.len() - m) =~= cs@.subrange(e - m, e as int));
        }
    }
    string_of(&cs.as_slice()[0..e])
}

} // verus!
