//! Character-sequence utilities: trimming, splitting, integer parsing and
//! decimal rendering, each stated over `Seq<char>`.
use vstd::prelude::*;

verus! {

/// The characters that `char::is_whitespace` accepts (Unicode White_Space).
pub open spec fn is_ws(c: char) -> bool {
    c == '\t' || c == '\n' || c == '\u{0B}' || c == '\u{0C}' || c == '\r' || c == ' '
        || c == '\u{85}' || c == '\u{A0}' || c == '\u{1680}'
        || ('\u{2000}' <= c && c <= '\u{200A}') || c == '\u{2028}' || c == '\u{2029}'
        || c == '\u{202F}' || c == '\u{205F}' || c == '\u{3000}'
}

pub fn is_whitespace(c: char) -> (r: bool)
    ensures
        r == is_ws(c),
{
    c == '\t' || c == '\n' || c == '\u{0B}' || c == '\u{0C}' || c == '\r' || c == ' '
        || c == '\u{85}' || c == '\u{A0}' || c == '\u{1680}'
        || ('\u{2000}' <= c && c <= '\u{200A}') || c == '\u{2028}' || c == '\u{2029}'
        || c == '\u{202F}' || c == '\u{205F}' || c == '\u{3000}'
}

/// The characters of `s`, one by one.
pub fn to_chars(s: &str) -> (r: Vec<char>)
    ensures
        r@ == s@,
{
    let n = s.unicode_len();
    let mut out: Vec<char> = Vec::new();
    let mut i: usize = 0;
    while i < n
        invariant
            n == s@.len(),
            i <= n,
            out@ == s@.subrange(0, i as int),
        decreases n - i,
    {
        out.push(s.get_char(i));
        i = i + 1;
    }
    proof {
        assert(out@ =~= s@);
    }
    out
}

/// Relies on `FromIterator<char> for String` (std): the string holds exactly
/// the given characters, in order.
#[verifier::external_body]
pub(crate) fn chars_to_string(v: &Vec<char>) -> (r: String)
    ensures
        r@ == v@,
{
    v.iter().collect()
}


/// The character classes that the trimming functions strip.
#[derive(PartialEq, Eq, Structural, Clone, Copy, Debug)]
pub enum CharClass {
    Nul,
    Space,
    Quote,
}

pub open spec fn in_class(k: CharClass, c: char) -> bool {
    match k {
        CharClass::Nul => c == '\0',
        CharClass::Space => is_ws(c),
        CharClass::Quote => c == '"',
    }
}

pub fn is_in_class(k: CharClass, c: char) -> (r: bool)
    ensures
        r == in_class(k, c),
{
    match k {
        CharClass::Nul => c == '\0',
        CharClass::Space => is_whitespace(c),
        CharClass::Quote => c == '"',
    }
}

/// `s` without its leading characters of class `k`.
pub open spec fn trim_left(s: Seq<char>, k: CharClass) -> Seq<char>
    decreases s.len(),
{
    if s.len() > 0 && in_class(k, s[0]) {
        trim_left(s.drop_first(), k)
    } else {
        s
    }
}

/// `s` without its trailing characters of class `k`.
pub open spec fn trim_right(s: Seq<char>, k: CharClass) -> Seq<char>
    decreases s.len(),
{
    if s.len() > 0 && in_class(k, s.last()) {
        trim_right(s.drop_last(), k)
    } else {
        s
    }
}

/// `s` without its leading and trailing characters of class `k`.
pub open spec fn trim(s: Seq<char>, k: CharClass) -> Seq<char> {
    trim_right(trim_left(s, k), k)
}

/// The characters of `v` from `a` up to (not including) `b`.
pub fn slice_chars(v: &Vec<char>, a: usize, b: usize) -> (r: Vec<char>)
    requires
        a <= b <= v@.len(),
    ensures
        r@ == v@.subrange(a as int, b as int),
{
    let mut out: Vec<char> = Vec::new();
    let mut i: usize = a;
    while i < b
        invariant
            a <= i <= b <= v@.len(),
            out@ == v@.subrange(a as int, i as int),
        decreases b - i,
    {
        out.push(v[i]);
        i = i + 1;
        proof {
            assert(out@ =~= v@.subrange(a as int, i as int));
        }
    }
    out
}

/// `v` with the characters of class `k` stripped from both ends.
pub fn trim_chars(v: &Vec<char>, k: CharClass) -> (r: Vec<char>)
    ensures
        r@ == trim(v@, k),
{
    let n = v.len();
    let mut i: usize = 0;
    proof {
        assert(v@.subrange(0, n as int) =~= v@);
    }
    while i < n && is_in_class(k, v[i])
        invariant
            i <= n == v@.len(),
            trim_left(v@, k) == trim_left(v@.subrange(i as int, n as int), k),
        decreases n - i,
    {
        proof {
            assert(v@.subrange(i as int, n as int).drop_first() =~= v@.subrange(
                i + 1,
                n as int,
            ));
        }
        i = i + 1;
    }
    proof {
        assert(trim_left(v@, k) == v@.subrange(i as int, n as int));
    }
    let mut j: usize = n;
    while j > i && is_in_class(k, v[j - 1])
        invariant
            i <= j <= n == v@.len(),
            trim(v@, k) == trim_right(v@.subrange(i as int, j as int), k),
        decreases j,
    {
        proof {
            assert(v@.subrange(i as int, j as int).drop_last() =~= v@.subrange(
                i as int,
                j - 1,
            ));
        }
        j = j - 1;
    }
    slice_chars(v, i, j)
}


/// The pieces of `s` between the separators `sep`, as `str::split` yields
/// them: `n` separators give `n + 1` pieces, empty ones included.
pub open spec fn split(s: Seq<char>, sep: char) -> Seq<Seq<char>>
    decreases s.len(),
{
    if s.len() == 0 {
        seq![Seq::<char>::empty()]
    } else if s.last() == sep {
        split(s.drop_last(), sep).push(Seq::<char>::empty())
    } else {
        let r = split(s.drop_last(), sep);
        r.update(r.len() - 1, r.last().push(s.last()))
    }
}

pub proof fn lemma_split_nonempty(s: Seq<char>, sep: char)
    ensures
        split(s, sep).len() >= 1,
    decreases s.len(),
{
    if s.len() > 0 {
        lemma_split_nonempty(s.drop_last(), sep);
    }
}

/// The pieces of `v` between the separators `sep`.
pub fn split_chars(v: &Vec<char>, sep: char) -> (r: Vec<Vec<char>>)
    ensures
        r@.len() == split(v@, sep).len(),
        forall|i: int| 0 <= i < r@.len() ==> #[trigger] r@[i]@ == split(v@, sep)[i],
{
    let n = v.len();
    let mut out: Vec<Vec<char>> = Vec::new();
    let mut start: usize = 0;
    let mut i: usize = 0;
    while i < n
        invariant
            start <= i <= n == v@.len(),
            out@.len() + 1 == split(v@.subrange(0, i as int), sep).len(),
            forall|j: int|
                0 <= j < out@.len() ==> #[trigger] out@[j]@ == split(
                    v@.subrange(0, i as int),
                    sep,
                )[j],
            split(v@.subrange(0, i as int), sep).last() == v@.subrange(start as int, i as int),
        decreases n - i,
    {
        let ghost pre = v@.subrange(0, i as int);
        let ghost cur = v@.subrange(0, i + 1);
        proof {
            assert(cur.drop_last() =~= pre);
            lemma_split_nonempty(pre, sep);
        }
        if v[i] == sep {
            let piece = slice_chars(v, start, i);
            out.push(piece);
            start = i + 1;
            proof {
                assert(v@.subrange(start as int, i + 1) =~= Seq::<char>::empty());
            }
        } else {
            proof {
                assert(v@.subrange(start as int, i + 1) =~= v@.subrange(
                    start as int,
                    i as int,
                ).push(v@[i as int]));
            }
        }
        i = i + 1;
    }
    let last = slice_chars(v, start, n);
    out.push(last);
    proof {
        assert(v@.subrange(0, n as int) =~= v@);
        lemma_split_nonempty(v@, sep);
    }
    out
}

/// The index of the first `c` in `s`, if any.
pub open spec fn find_char(s: Seq<char>, c: char) -> Option<nat>
    decreases s.len(),
{
    if s.len() == 0 {
        None
    } else if s[0] == c {
        Some(0)
    } else {
        match find_char(s.drop_first(), c) {
            Some(i) => Some((i + 1) as nat),
            None => None,
        }
    }
}

pub proof fn lemma_find_char_bound(s: Seq<char>, c: char)
    ensures
        find_char(s, c) matches Some(i) ==> i < s.len() && s[i as int] == c,
    decreases s.len(),
{
    if s.len() > 0 {
        lemma_find_char_bound(s.drop_first(), c);
    }
}

/// The position of the first `c` in `v`, if any.
pub fn find_char_in(v: &Vec<char>, c: char) -> (r: Option<usize>)
    ensures
        r matches Some(i) ==> i < v@.len() && find_char(v@, c) == Some(i as nat),
        r is None ==> find_char(v@, c) is None,
{
    let n = v.len();
    let mut i: usize = 0;
    proof {
        assert(v@.subrange(0, n as int) =~= v@);
    }
    while i < n
        invariant
            i <= n == v@.len(),
            find_char(v@, c) == (match find_char(v@.subrange(i as int, n as int), c) {
                Some(j) => Some((j + i) as nat),
                None => None::<nat>,
            }),
        decreases n - i,
    {
        if v[i] == c {
            return Some(i);
        }
        proof {
            assert(v@.subrange(i as int, n as int).drop_first() =~= v@.subrange(
                i + 1,
                n as int,
            ));
        }
        i = i + 1;
    }
    None
}

/// `s` cut at its first `c`: what stands before it and what follows it.
pub open spec fn split_once(s: Seq<char>, c: char) -> Option<(Seq<char>, Seq<char>)> {
    match find_char(s, c) {
        Some(i) => Some((s.take(i as int), s.skip(i as int + 1))),
        None => None,
    }
}

pub fn split_once_chars(v: &Vec<char>, c: char) -> (r: Option<(Vec<char>, Vec<char>)>)
    ensures
        r matches Some(p) ==> split_once(v@, c) == Some((p.0@, p.1@)),
        r is None ==> split_once(v@, c) is None,
{
    match find_char_in(v, c) {
        Some(i) => {
            proof {
                lemma_find_char_bound(v@, c);
            }
            let a = slice_chars(v, 0, i);
            let n = v.len();
            let b = slice_chars(v, i + 1, n);
            proof {
                assert(a@ =~= v@.take(i as int));
                assert(b@ =~= v@.skip(i + 1));
            }
            Some((a, b))
        },
        None => None,
    }
}


pub open spec fn is_digit(c: char) -> bool {
    '0' <= c && c <= '9'
}

pub open spec fn all_digits(s: Seq<char>) -> bool {
    forall|i: int| 0 <= i < s.len() ==> is_digit(#[trigger] s[i])
}

/// The value of the decimal digits `s`, most significant first.
pub open spec fn digits_value(s: Seq<char>) -> nat
    decreases s.len(),
{
    if s.len() == 0 {
        0
    } else {
        digits_value(s.drop_last()) * 10 + (s.last() as nat - '0' as nat) as nat
    }
}

/// `s` without one leading `+`.
pub open spec fn unsigned_digits(s: Seq<char>) -> Seq<char> {
    if s.len() > 0 && s[0] == '+' {
        s.drop_first()
    } else {
        s
    }
}

pub open spec fn is_number(d: Seq<char>) -> bool {
    d.len() > 0 && all_digits(d)
}

/// What `u8::from_str` accepts: an optional `+`, then decimal digits whose
/// value fits in a `u8`.
pub open spec fn parse_u8(s: Seq<char>) -> Option<u8> {
    let d = unsigned_digits(s);
    if is_number(d) && digits_value(d) <= 255 {
        Some(digits_value(d) as u8)
    } else {
        None
    }
}

/// What `i64::from_str` accepts: an optional sign, then decimal digits whose
/// signed value fits in an `i64`.
pub open spec fn parse_i64(s: Seq<char>) -> Option<i64> {
    if s.len() > 0 && s[0] == '-' {
        let d = s.drop_first();
        if is_number(d) && digits_value(d) <= 0x8000_0000_0000_0000 {
            Some((-digits_value(d)) as i64)
        } else {
            None
        }
    } else {
        let d = unsigned_digits(s);
        if is_number(d) && digits_value(d) <= 0x7fff_ffff_ffff_ffff {
            Some(digits_value(d) as i64)
        } else {
            None
        }
    }
}

/// Reads the digits of `v` from `from` on. `None` where there are none or one
/// is not a digit; otherwise their value, or `cap + 1` where it exceeds `cap`.
fn read_digits(v: &Vec<char>, from: usize, cap: u128) -> (r: Option<u128>)
    requires
        from <= v@.len(),
        cap < 0x1_0000_0000_0000_0000,
    ensures
        ({
            let d = v@.subrange(from as int, v@.len() as int);
            &&& r is Some <==> is_number(d)
            &&& r matches Some(x) ==> (if digits_value(d) <= cap {
                x == digits_value(d)
            } else {
                x == cap + 1
            })
        }),
{
    let n = v.len();
    if from == n {
        return None;
    }
    let mut acc: u128 = 0;
    let mut i: usize = from;
    proof {
        assert(v@.subrange(from as int, from as int) =~= Seq::<char>::empty());
    }
    while i < n
        invariant
            from <= i <= n == v@.len(),
            cap < 0x1_0000_0000_0000_0000,
            all_digits(v@.subrange(from as int, i as int)),
            acc == (if digits_value(v@.subrange(from as int, i as int)) <= cap {
                digits_value(v@.subrange(from as int, i as int))
            } else {
                (cap + 1) as nat
            }),
        decreases n - i,
    {
        let c = v[i];
        if !('0' <= c && c <= '9') {
            proof {
                let d = v@.subrange(from as int, n as int);
                assert(d[i - from] == c);
            }
            return None;
        }
        let ghost pre = v@.subrange(from as int, i as int);
        let ghost cur = v@.subrange(from as int, i + 1);
        proof {
            assert(cur.drop_last() =~= pre);
            assert(cur.last() == c);
            assert(all_digits(cur)) by {
                assert forall|j: int| 0 <= j < cur.len() implies is_digit(#[trigger] cur[j]) by {
                    if j < pre.len() {
                        assert(cur[j] == pre[j]);
                    }
                }
            }
        }
        let dv = (c as u32 - '0' as u32) as u128;
        if acc > cap {
            acc = cap + 1;
        } else {
            let next = acc * 10 + dv;
            if next > cap {
                acc = cap + 1;
            } else {
                acc = next;
            }
        }
        i = i + 1;
    }
    proof {
        assert(v@.subrange(from as int, n as int).len() > 0);
    }
    Some(acc)
}

/// Parses `v` as `u8::from_str` does.
pub fn parse_u8_chars(v: &Vec<char>) -> (r: Option<u8>)
    ensures
        r == parse_u8(v@),
{
    let from: usize = if v.len() > 0 && v[0] == '+' {
        1
    } else {
        0
    };
    proof {
        assert(v@.subrange(from as int, v@.len() as int) =~= unsigned_digits(v@));
    }
    match read_digits(v, from, 255) {
        Some(x) => {
            if x <= 255 {
                Some(x as u8)
            } else {
                None
            }
        },
        None => None,
    }
}

/// Parses `v` as `i64::from_str` does.
pub fn parse_i64_chars(v: &Vec<char>) -> (r: Option<i64>)
    ensures
        r == parse_i64(v@),
{
    if v.len() > 0 && v[0] == '-' {
        proof {
            assert(v@.subrange(1, v@.len() as int) =~= v@.drop_first());
        }
        match read_digits(v, 1, 0x8000_0000_0000_0000) {
            Some(x) => {
                if x <= 0x8000_0000_0000_0000 {
                    Some((0i128 - x as i128) as i64)
                } else {
                    None
                }
            },
            None => None,
        }
    } else {
        let from: usize = if v.len() > 0 && v[0] == '+' {
            1
        } else {
            0
        };
        proof {
            assert(v@.subrange(from as int, v@.len() as int) =~= unsigned_digits(v@));
        }
        match read_digits(v, from, 0x7fff_ffff_ffff_ffff) {
            Some(x) => {
                if x <= 0x7fff_ffff_ffff_ffff {
                    Some(x as i64)
                } else {
                    None
                }
            },
            None => None,
        }
    }
}


pub open spec fn digit_char(d: nat) -> char {
    ((d + 48) as u8) as char
}

/// The decimal rendering of `n`, without leading zeros.
pub open spec fn dec(n: nat) -> Seq<char>
    decreases n,
{
    if n < 10 {
        seq![digit_char(n)]
    } else {
        dec(n / 10).push(digit_char(n % 10))
    }
}

/// The decimal rendering of `x`, with a `-` before a negative value.
pub open spec fn dec_int(x: int) -> Seq<char> {
    if x < 0 {
        seq!['-'] + dec((-x) as nat)
    } else {
        dec(x as nat)
    }
}

/// Appends the decimal rendering of `n` to `out`.
pub fn push_decimal(out: &mut Vec<char>, n: u128)
    ensures
        final(out)@ == old(out)@ + dec(n as nat),
    decreases n,
{
    if n >= 10 {
        push_decimal(out, n / 10);
    }
    let d: u8 = (n % 10) as u8;
    out.push((d + 48) as char);
    proof {
        assert(final(out)@ =~= old(out)@ + dec(n as nat));
    }
}

/// Appends the decimal rendering of the signed `x` to `out`.
pub fn push_decimal_i64(out: &mut Vec<char>, x: i64)
    ensures
        final(out)@ == old(out)@ + dec_int(x as int),
{
    if x < 0 {
        out.push('-');
        let m: u128 = (0i128 - x as i128) as u128;
        push_decimal(out, m);
        proof {
            assert(final(out)@ =~= old(out)@ + dec_int(x as int));
        }
    } else {
        push_decimal(out, x as u128);
    }
}

/// The number of bytes that UTF-8 takes for `c`.
pub open spec fn utf8_width(c: char) -> nat {
    let u = c as u32;
    if u < 0x80 {
        1
    } else if u < 0x800 {
        2
    } else if u < 0x10000 {
        3
    } else {
        4
    }
}

/// The number of bytes that UTF-8 takes for `s`.
pub open spec fn utf8_len(s: Seq<char>) -> nat
    decreases s.len(),
{
    if s.len() == 0 {
        0
    } else {
        utf8_len(s.drop_last()) + utf8_width(s.last())
    }
}

pub proof fn lemma_utf8_len_bound(s: Seq<char>)
    ensures
        utf8_len(s) <= 4 * s.len(),
    decreases s.len(),
{
    if s.len() > 0 {
        lemma_utf8_len_bound(s.drop_last());
    }
}

/// The number of bytes that UTF-8 takes for `v`.
pub fn utf8_len_of(v: &Vec<char>) -> (r: u128)
    ensures
        r as nat == utf8_len(v@),
{
    let n = v.len();
    let mut total: u128 = 0;
    let mut i: usize = 0;
    while i < n
        invariant
            i <= n == v@.len(),
            total as nat == utf8_len(v@.subrange(0, i as int)),
        decreases n - i,
    {
        let ghost pre = v@.subrange(0, i as int);
        proof {
            assert(v@.subrange(0, i + 1).drop_last() =~= pre);
            lemma_utf8_len_bound(pre);
        }
        let u = v[i] as u32;
        let w: u128 = if u < 0x80 {
            1
        } else if u < 0x800 {
            2
        } else if u < 0x10000 {
            3
        } else {
            4
        };
        total = total + w;
        i = i + 1;
    }
    proof {
        assert(v@.subrange(0, n as int) =~= v@);
    }
    total
}

/// `t` occurs in `s` at position `i`.
pub open spec fn occurs_at(s: Seq<char>, t: Seq<char>, i: int) -> bool {
    0 <= i && i + t.len() <= s.len() && s.subrange(i, i + t.len()) == t
}

/// `t` is a substring of `s`.
pub open spec fn contains(s: Seq<char>, t: Seq<char>) -> bool {
    exists|i: int| occurs_at(s, t, i)
}

/// Whether `t` occurs in `s` at position `i`.
fn occurs_at_exec(s: &Vec<char>, t: &Vec<char>, i: usize) -> (r: bool)
    requires
        i + t@.len() <= s@.len(),
    ensures
        r == occurs_at(s@, t@, i as int),
{
    let m = t.len();
    let n = s.len();
    let mut j: usize = 0;
    while j < m
        invariant
            j <= m == t@.len(),
            i + m <= n == s@.len(),
            forall|k: int| 0 <= k < j ==> s@[i + k] == t@[k],
        decreases m - j,
    {
        if s[i + j] != t[j] {
            proof {
                assert(s@.subrange(i as int, i + m)[j as int] != t@[j as int]);
            }
            return false;
        }
        j = j + 1;
    }
    proof {
        assert(s@.subrange(i as int, i + m) =~= t@);
    }
    true
}

/// Whether `t` is a substring of `s`, as `str::contains` decides.
pub fn contains_chars(s: &Vec<char>, t: &Vec<char>) -> (r: bool)
    ensures
        r == contains(s@, t@),
{
    let n = s.len();
    let m = t.len();
    if m > n {
        return false;
    }
    let mut i: usize = 0;
    loop
        invariant
            m <= n == s@.len(),
            m == t@.len(),
            i <= n - m,
            forall|k: int| 0 <= k < i ==> !occurs_at(s@, t@, k),
        decreases n - m - i,
    {
        if occurs_at_exec(s, t, i) {
            return true;
        }
        if i == n - m {
            return false;
        }
        i = i + 1;
    }
}

/// Whether `a` and `b` hold the same characters.
pub fn chars_eq(a: &Vec<char>, b: &Vec<char>) -> (r: bool)
    ensures
        r == (a@ == b@),
{
    if a.len() != b.len() {
        return false;
    }
    proof {
        assert(a@.subrange(0, b@.len() as int) =~= a@);
    }
    occurs_at_exec(a, b, 0)
}


/// The index of the first occurrence of `p` in `s`, if any.
pub open spec fn find_seq(s: Seq<char>, p: Seq<char>) -> Option<nat>
    decreases s.len(),
{
    if s.len() < p.len() {
        None
    } else if s.take(p.len() as int) == p {
        Some(0)
    } else if s.len() == 0 {
        None
    } else {
        match find_seq(s.drop_first(), p) {
            Some(i) => Some((i + 1) as nat),
            None => None,
        }
    }
}

/// The position of the first occurrence of `p` in `v`, if any.
pub fn find_seq_in(v: &Vec<char>, p: &Vec<char>) -> (r: Option<usize>)
    ensures
        r matches Some(i) ==> i + p@.len() <= v@.len() && find_seq(v@, p@) == Some(i as nat),
        r is None ==> find_seq(v@, p@) is None,
{
    let n = v.len();
    let m = p.len();
    if m == 0 {
        proof {
            assert(v@.take(0) =~= p@);
        }
        return Some(0);
    }
    let mut i: usize = 0;
    proof {
        assert(v@.subrange(0, n as int) =~= v@);
    }
    while i < n
        invariant
            i <= n,
            n == v@.len(),
            0 < m == p@.len(),
            find_seq(v@, p@) == (match find_seq(v@.subrange(i as int, n as int), p@) {
                Some(j) => Some((j + i) as nat),
                None => None::<nat>,
            }),
        decreases n - i,
    {
        let ghost w = v@.subrange(i as int, n as int);
        if n - i < m {
            return None;
        }
        if occurs_at_exec(v, p, i) {
            proof {
                assert(w.take(m as int) =~= v@.subrange(i as int, i + m));
            }
            return Some(i);
        }
        proof {
            assert(w.take(m as int) =~= v@.subrange(i as int, i + m));
            assert(w.drop_first() =~= v@.subrange(i + 1, n as int));
        }
        i = i + 1;
    }
    proof {
        assert(v@.subrange(n as int, n as int).len() == 0);
    }
    None
}


pub proof fn lemma_trim_unchanged(s: Seq<char>, k: CharClass)
    requires
        s.len() > 0,
        !in_class(k, s[0]),
        !in_class(k, s.last()),
    ensures
        trim(s, k) == s,
{
}

pub proof fn lemma_split_single(s: Seq<char>, sep: char)
    requires
        forall|i: int| 0 <= i < s.len() ==> s[i] != sep,
    ensures
        split(s, sep) == seq![s],
    decreases s.len(),
{
    if s.len() > 0 {
        let t = s.drop_last();
        lemma_split_single(t, sep);
        assert(t.push(s.last()) =~= s);
        assert(seq![t].update(0, t.push(s.last())) =~= seq![s]);
    } else {
        assert(s =~= Seq::<char>::empty());
    }
}

pub proof fn lemma_split_pair(a: Seq<char>, b: Seq<char>, sep: char)
    requires
        forall|i: int| 0 <= i < a.len() ==> a[i] != sep,
        forall|i: int| 0 <= i < b.len() ==> b[i] != sep,
    ensures
        split(a + seq![sep] + b, sep) == seq![a, b],
    decreases b.len(),
{
    let s = a + seq![sep] + b;
    if b.len() == 0 {
        assert(s.drop_last() =~= a);
        lemma_split_single(a, sep);
        assert(b =~= Seq::<char>::empty());
        assert(seq![a].push(Seq::<char>::empty()) =~= seq![a, b]);
    } else {
        let b1 = b.drop_last();
        assert(s.drop_last() =~= a + seq![sep] + b1);
        lemma_split_pair(a, b1, sep);
        assert(s.last() == b.last());
        assert(b1.push(b.last()) =~= b);
        assert(seq![a, b1].update(1, b1.push(b.last())) =~= seq![a, b]);
    }
}

pub proof fn lemma_find_char_first(a: Seq<char>, b: Seq<char>, c: char)
    requires
        forall|i: int| 0 <= i < a.len() ==> a[i] != c,
    ensures
        find_char(a + seq![c] + b, c) == Some(a.len()),
    decreases a.len(),
{
    let s = a + seq![c] + b;
    if a.len() > 0 {
        lemma_find_char_first(a.drop_first(), b, c);
        assert(s.drop_first() =~= a.drop_first() + seq![c] + b);
    }
}

pub proof fn lemma_dec_digits(n: nat)
    ensures
        dec(n).len() > 0,
        all_digits(dec(n)),
        digits_value(dec(n)) == n,
    decreases n,
{
    if n >= 10 {
        lemma_dec_digits(n / 10);
        let s = dec(n);
        assert(s.drop_last() =~= dec(n / 10));
        assert(digit_char(n % 10) as nat == n % 10 + 48);
        assert(n == (n / 10) * 10 + n % 10);
        assert('0' as nat == 48);
        assert(s.last() == digit_char(n % 10));
        assert(digits_value(s) == digits_value(s.drop_last()) * 10 + (s.last() as nat - '0' as nat) as nat);
        assert(all_digits(s)) by {
            assert forall|i: int| 0 <= i < s.len() implies is_digit(#[trigger] s[i]) by {
                if i < s.len() - 1 {
                    assert(s[i] == dec(n / 10)[i]);
                }
            }
        }
    } else {
        assert(dec(n).drop_last() =~= Seq::<char>::empty());
        assert(digit_char(n) as nat == n + 48);
        assert('0' as nat == 48);
        assert(digits_value(dec(n)) == digits_value(dec(n).drop_last()) * 10 + (dec(n).last() as nat - '0' as nat) as nat);
    }
}

} // verus!
