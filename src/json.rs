//! The flat-JSON codec: single-level objects of text and integer fields.
//!
//! Decoding trims NUL bytes and whitespace, requires one pair of braces,
//! splits the inside on every comma and each pair at its first colon, and
//! trims whitespace and then quote characters from both key and value.
//! Encoding writes names raw, with no escaping.
use vstd::prelude::*;
use crate::text::{
    chars_eq, chars_to_string, dec, is_digit, lemma_dec_digits, lemma_find_char_first,
    lemma_split_pair, lemma_trim_unchanged, parse_i64, parse_i64_chars, parse_u8, parse_u8_chars,
    push_decimal, slice_chars, split, split_chars, split_once, split_once_chars, to_chars, trim,
    trim_chars, trim_left, trim_right, unsigned_digits, CharClass,
};

verus! {

/// The inside of the braces of a flat object, or `None` where the trimmed
/// body is not enclosed in `{` and `}`.
pub open spec fn object_inner(body: Seq<char>) -> Option<Seq<char>> {
    let t = trim(trim(body, CharClass::Nul), CharClass::Space);
    if t.len() >= 2 && t[0] == '{' && t.last() == '}' {
        Some(t.subrange(1, t.len() - 1))
    } else {
        None
    }
}

/// A key or a value as the codec reads it: whitespace, then quotes, trimmed.
pub open spec fn clean(s: Seq<char>) -> Seq<char> {
    trim(trim(s, CharClass::Space), CharClass::Quote)
}

/// A pair of the object, cut at its first colon, key and value cleaned.
pub open spec fn field(pair: Seq<char>) -> Option<(Seq<char>, Seq<char>)> {
    match split_once(pair, ':') {
        Some((k, v)) => Some((clean(k), clean(v))),
        None => None,
    }
}

/// Every pair holds a colon.
pub open spec fn all_fields(pairs: Seq<Seq<char>>) -> bool {
    forall|i: int| 0 <= i < pairs.len() ==> (#[trigger] field(pairs[i])) is Some
}

/// The value of the last pair whose key is `key`.
pub open spec fn lookup(pairs: Seq<Seq<char>>, key: Seq<char>) -> Option<Seq<char>>
    decreases pairs.len(),
{
    if pairs.len() == 0 {
        None
    } else {
        match field(pairs.last()) {
            Some((k, v)) if k == key => Some(v),
            _ => lookup(pairs.drop_last(), key),
        }
    }
}

/// The pairs of a flat object, or `None` where it is not one.
pub open spec fn object_pairs(body: Seq<char>) -> Option<Seq<Seq<char>>> {
    match object_inner(body) {
        Some(inner) => {
            let pairs = split(inner, ',');
            if all_fields(pairs) {
                Some(pairs)
            } else {
                None
            }
        },
        None => None,
    }
}

/// The text value of `key` in the object, empty where it is absent.
pub open spec fn text_field(pairs: Seq<Seq<char>>, key: Seq<char>) -> Seq<char> {
    match lookup(pairs, key) {
        Some(v) => v,
        None => Seq::<char>::empty(),
    }
}

pub open spec fn u8_field(pairs: Seq<Seq<char>>, key: Seq<char>) -> Option<u8> {
    match lookup(pairs, key) {
        Some(v) => parse_u8(v),
        None => None,
    }
}

pub open spec fn i64_field(pairs: Seq<Seq<char>>, key: Seq<char>) -> Option<i64> {
    match lookup(pairs, key) {
        Some(v) => parse_i64(v),
        None => None,
    }
}

pub open spec fn name_key() -> Seq<char> {
    seq!['n', 'a', 'm', 'e']
}

pub open spec fn age_key() -> Seq<char> {
    seq!['a', 'g', 'e']
}

pub open spec fn operator_key() -> Seq<char> {
    seq!['o', 'p', 'e', 'r', 'a', 't', 'o', 'r']
}

pub open spec fn arg1_key() -> Seq<char> {
    seq!['a', 'r', 'g', '1']
}

pub open spec fn arg2_key() -> Seq<char> {
    seq!['a', 'r', 'g', '2']
}

/// A user body: a non-empty `name` and an `age` that parses as a `u8`.
pub open spec fn decode_user(body: Seq<char>) -> Option<(Seq<char>, u8)> {
    match object_pairs(body) {
        Some(pairs) => {
            let name = text_field(pairs, name_key());
            match u8_field(pairs, age_key()) {
                Some(age) if name.len() > 0 => Some((name, age)),
                _ => None,
            }
        },
        None => None,
    }
}

/// A math body: a non-empty `operator` and two operands that parse as `i64`.
pub open spec fn decode_math(body: Seq<char>) -> Option<(Seq<char>, i64, i64)> {
    match object_pairs(body) {
        Some(pairs) => {
            let op = text_field(pairs, operator_key());
            match (i64_field(pairs, arg1_key()), i64_field(pairs, arg2_key())) {
                (Some(a), Some(b)) if op.len() > 0 => Some((op, a, b)),
                _ => None,
            }
        },
        None => None,
    }
}

fn field_exec(pair: &Vec<char>) -> (r: Option<(Vec<char>, Vec<char>)>)
    ensures
        r matches Some(kv) ==> field(pair@) == Some((kv.0@, kv.1@)),
        r is None ==> field(pair@) is None,
{
    match split_once_chars(pair, ':') {
        Some((k, v)) => {
            let k2 = trim_chars(&trim_chars(&k, CharClass::Space), CharClass::Quote);
            let v2 = trim_chars(&trim_chars(&v, CharClass::Space), CharClass::Quote);
            Some((k2, v2))
        },
        None => None,
    }
}

/// The cleaned key/value pairs of a flat object, in order.
fn object_fields(body: &str) -> (r: Option<Vec<(Vec<char>, Vec<char>)>>)
    ensures
        r is Some <==> object_pairs(body@) is Some,
        r matches Some(fs) ==> ({
            let pairs = object_pairs(body@)->Some_0;
            &&& fs@.len() == pairs.len()
            &&& forall|i: int|
                0 <= i < fs@.len() ==> field(pairs[i]) == Some(
                    ((#[trigger] fs@[i]).0@, fs@[i].1@),
                )
        }),
{
    let chars = to_chars(body);
    let t = trim_chars(&trim_chars(&chars, CharClass::Nul), CharClass::Space);
    let n = t.len();
    if !(n >= 2 && t[0] == '{' && t[n - 1] == '}') {
        return None;
    }
    let inner = slice_chars(&t, 1, n - 1);
    let pieces = split_chars(&inner, ',');
    let ghost pairs = split(inner@, ',');
    proof {
        assert(object_inner(body@) == Some(inner@));
    }
    let mut out: Vec<(Vec<char>, Vec<char>)> = Vec::new();
    let mut i: usize = 0;
    while i < pieces.len()
        invariant
            object_inner(body@) == Some(inner@),
            pairs == split(inner@, ','),
            pieces@.len() == pairs.len(),
            forall|j: int| 0 <= j < pieces@.len() ==> #[trigger] pieces@[j]@ == pairs[j],
            i <= pieces@.len(),
            out@.len() == i,
            forall|j: int|
                0 <= j < i ==> field(pairs[j]) == Some(((#[trigger] out@[j]).0@, out@[j].1@)),
        decreases pieces@.len() - i,
    {
        match field_exec(&pieces[i]) {
            Some(kv) => {
                out.push(kv);
            },
            None => {
                proof {
                    assert(field(pairs[i as int]) is None);
                    assert(!all_fields(pairs));
                }
                return None;
            },
        }
        i = i + 1;
    }
    proof {
        assert(all_fields(pairs)) by {
            assert forall|j: int| 0 <= j < pairs.len() implies (#[trigger] field(pairs[j])) is Some by {
                assert(field(pairs[j]) == Some((out@[j].0@, out@[j].1@)));
            }
        }
    }
    Some(out)
}

/// The value of the last field whose key is `key`.
fn lookup_exec(fs: &Vec<(Vec<char>, Vec<char>)>, key: &Vec<char>, pairs: Ghost<Seq<Seq<char>>>) -> (r: Option<Vec<char>>)
    requires
        fs@.len() == pairs@.len(),
        forall|i: int|
            0 <= i < fs@.len() ==> field(pairs@[i]) == Some(((#[trigger] fs@[i]).0@, fs@[i].1@)),
    ensures
        r matches Some(v) ==> lookup(pairs@, key@) == Some(v@),
        r is None ==> lookup(pairs@, key@) is None,
{
    let mut i: usize = fs.len();
    proof {
        assert(pairs@.take(i as int) =~= pairs@);
    }
    while i > 0
        invariant
            i <= fs@.len() == pairs@.len(),
            forall|j: int|
                0 <= j < fs@.len() ==> field(pairs@[j]) == Some(((#[trigger] fs@[j]).0@, fs@[j].1@)),
            lookup(pairs@, key@) == lookup(pairs@.take(i as int), key@),
        decreases i,
    {
        let ghost pre = pairs@.take(i as int);
        proof {
            assert(pre.drop_last() =~= pairs@.take(i - 1));
            assert(pre.last() == pairs@[i - 1]);
            assert(field(pairs@[i - 1]) == Some((fs@[i - 1].0@, fs@[i - 1].1@)));
        }
        if chars_eq(&fs[i - 1].0, key) {
            let v = slice_chars(&fs[i - 1].1, 0, fs[i - 1].1.len());
            proof {
                assert(v@ =~= fs@[i - 1].1@);
            }
            return Some(v);
        }
        i = i - 1;
    }
    None
}


/// Decodes a user body `{"name":..,"age":..}` into its name and age.
pub fn parse_json_user(body: &str) -> (r: Option<(String, u8)>)
    ensures
        r matches Some(u) ==> decode_user(body@) == Some((u.0@, u.1)),
        r is None ==> decode_user(body@) is None,
{
    let fs = match object_fields(body) {
        Some(fs) => fs,
        None => return None,
    };
    let ghost pairs = object_pairs(body@)->Some_0;
    let name_k: Vec<char> = vec!['n', 'a', 'm', 'e'];
    let age_k: Vec<char> = vec!['a', 'g', 'e'];
    proof {
        assert(name_k@ =~= name_key());
        assert(age_k@ =~= age_key());
    }
    let name = match lookup_exec(&fs, &name_k, Ghost(pairs)) {
        Some(v) => v,
        None => Vec::new(),
    };
    proof {
        assert(name@ =~= text_field(pairs, name_key()));
    }
    let age = match lookup_exec(&fs, &age_k, Ghost(pairs)) {
        Some(v) => parse_u8_chars(&v),
        None => None,
    };
    match age {
        Some(a) => {
            if name.len() > 0 {
                Some((chars_to_string(&name), a))
            } else {
                None
            }
        },
        None => None,
    }
}

/// Decodes a math body `{"operator":..,"arg1":..,"arg2":..}` into its
/// operator token and two operands.
pub fn parse_json_math(body: &str) -> (r: Option<(String, i64, i64)>)
    ensures
        r matches Some(m) ==> decode_math(body@) == Some((m.0@, m.1, m.2)),
        r is None ==> decode_math(body@) is None,
{
    let fs = match object_fields(body) {
        Some(fs) => fs,
        None => return None,
    };
    let ghost pairs = object_pairs(body@)->Some_0;
    let op_k: Vec<char> = vec!['o', 'p', 'e', 'r', 'a', 't', 'o', 'r'];
    let a1_k: Vec<char> = vec!['a', 'r', 'g', '1'];
    let a2_k: Vec<char> = vec!['a', 'r', 'g', '2'];
    proof {
        assert(op_k@ =~= operator_key());
        assert(a1_k@ =~= arg1_key());
        assert(a2_k@ =~= arg2_key());
    }
    let op = match lookup_exec(&fs, &op_k, Ghost(pairs)) {
        Some(v) => v,
        None => Vec::new(),
    };
    proof {
        assert(op@ =~= text_field(pairs, operator_key()));
    }
    let a1 = match lookup_exec(&fs, &a1_k, Ghost(pairs)) {
        Some(v) => parse_i64_chars(&v),
        None => None,
    };
    let a2 = match lookup_exec(&fs, &a2_k, Ghost(pairs)) {
        Some(v) => parse_i64_chars(&v),
        None => None,
    };
    match (a1, a2) {
        (Some(a), Some(b)) => {
            if op.len() > 0 {
                Some((chars_to_string(&op), a, b))
            } else {
                None
            }
        },
        _ => None,
    }
}

/// `{"name":"` before the name of an encoded record.
pub open spec fn record_head() -> Seq<char> {
    seq!['{', '"', 'n', 'a', 'm', 'e', '"', ':', '"']
}

/// `","age":` between the name and the age of an encoded record.
pub open spec fn record_middle() -> Seq<char> {
    seq!['"', ',', '"', 'a', 'g', 'e', '"', ':']
}

/// A record as the codec writes it: `{"name":"<name>","age":<age>}`, the
/// name raw.
pub open spec fn encode_record(name: Seq<char>, age: u8) -> Seq<char> {
    record_head() + name + record_middle() + dec(age as nat) + seq!['}']
}

/// Appends all of `v` to `out`.
pub fn push_all(out: &mut Vec<char>, v: &Vec<char>)
    ensures
        final(out)@ == old(out)@ + v@,
{
    let mut i: usize = 0;
    while i < v.len()
        invariant
            i <= v@.len(),
            out@ == old(out)@ + v@.subrange(0, i as int),
        decreases v@.len() - i,
    {
        out.push(v[i]);
        i = i + 1;
        proof {
            assert(out@ =~= old(out)@ + v@.subrange(0, i as int));
        }
    }
    proof {
        assert(v@.subrange(0, v@.len() as int) =~= v@);
    }
}

/// Appends the encoding of one record to `out`.
pub fn push_record(out: &mut Vec<char>, name: &str, age: u8)
    ensures
        final(out)@ == old(out)@ + encode_record(name@, age),
{
    let head: Vec<char> = vec!['{', '"', 'n', 'a', 'm', 'e', '"', ':', '"'];
    let middle: Vec<char> = vec!['"', ',', '"', 'a', 'g', 'e', '"', ':'];
    push_all(out, &head);
    push_all(out, &to_chars(name));
    push_all(out, &middle);
    push_decimal(out, age as u128);
    out.push('}');
    proof {
        assert(head@ =~= record_head());
        assert(middle@ =~= record_middle());
        assert(final(out)@ =~= old(out)@ + encode_record(name@, age));
    }
}


/// A malformed user body is refused: one not enclosed in braces, with a
/// pair lacking a colon, with no non-empty `name`, or with an `age` that is
/// missing or not a number in 0..=255.
pub proof fn lemma_malformed_user_refused(body: Seq<char>)
    requires
        object_pairs(body) is None || text_field(object_pairs(body)->Some_0, name_key()).len() == 0
            || u8_field(object_pairs(body)->Some_0, age_key()) is None,
    ensures
        decode_user(body) is None,
{
}

/// Cleaning a quoted text yields the text, where the text is not empty and
/// neither starts nor ends with a quote.
pub proof fn lemma_clean_quoted(x: Seq<char>)
    requires
        x.len() > 0,
        x[0] != '"',
        x.last() != '"',
    ensures
        clean(seq!['"'] + x + seq!['"']) == x,
{
    let q = seq!['"'] + x + seq!['"'];
    lemma_trim_unchanged(q, CharClass::Space);
    let q1 = x + seq!['"'];
    assert(q.drop_first() =~= q1);
    assert(trim_left(q1, CharClass::Quote) == q1);
    assert(q1.drop_last() =~= x);
    assert(trim_right(x, CharClass::Quote) == x);
}

/// Codec round trip: decoding the encoding of a record gives back its name
/// and age, where the name is not empty and holds no comma, colon or quote.
pub proof fn lemma_round_trip(name: Seq<char>, age: u8)
    requires
        name.len() > 0,
        forall|i: int| 0 <= i < name.len() ==> name[i] != ',' && name[i] != ':' && name[i] != '"',
    ensures
        decode_user(encode_record(name, age)) == Some((name, age)),
{
    let d = dec(age as nat);
    lemma_dec_digits(age as nat);
    let e = encode_record(name, age);
    lemma_trim_unchanged(e, CharClass::Nul);
    lemma_trim_unchanged(e, CharClass::Space);
    let p1 = seq!['"', 'n', 'a', 'm', 'e', '"', ':', '"'] + name + seq!['"'];
    let p2 = seq!['"', 'a', 'g', 'e', '"', ':'] + d;
    let inner = e.subrange(1, e.len() - 1);
    assert(inner =~= p1 + seq![','] + p2);
    assert(object_inner(e) == Some(inner));
    assert forall|i: int| 0 <= i < p1.len() implies p1[i] != ',' by {
        if 8 <= i < 8 + name.len() {
            assert(p1[i] == name[i - 8]);
        }
    }
    assert forall|i: int| 0 <= i < p2.len() implies p2[i] != ',' by {
        if i >= 6 {
            assert(p2[i] == d[i - 6]);
            assert(is_digit(d[i - 6]));
        }
    }
    lemma_split_pair(p1, p2, ',');
    let pairs = seq![p1, p2];
    // the first pair: "name":"<name>"
    let k1 = seq!['"', 'n', 'a', 'm', 'e', '"'];
    let v1 = seq!['"'] + name + seq!['"'];
    assert(p1 =~= k1 + seq![':'] + v1);
    lemma_find_char_first(k1, v1, ':');
    assert(p1.take(6) =~= k1);
    assert(p1.skip(7) =~= v1);
    assert(k1 =~= seq!['"'] + name_key() + seq!['"']);
    lemma_clean_quoted(name_key());
    lemma_clean_quoted(name);
    assert(field(p1) == Some((name_key(), name)));
    // the second pair: "age":<digits>
    let k2 = seq!['"', 'a', 'g', 'e', '"'];
    assert(p2 =~= k2 + seq![':'] + d);
    lemma_find_char_first(k2, d, ':');
    assert(p2.take(5) =~= k2);
    assert(p2.skip(6) =~= d);
    assert(k2 =~= seq!['"'] + age_key() + seq!['"']);
    lemma_clean_quoted(age_key());
    assert(is_digit(d[0]) && is_digit(d.last()));
    lemma_trim_unchanged(d, CharClass::Space);
    lemma_trim_unchanged(d, CharClass::Quote);
    assert(field(p2) == Some((age_key(), d)));
    assert(all_fields(pairs));
    assert(object_pairs(e) == Some(pairs));
    assert(pairs.drop_last() =~= seq![p1]);
    assert(seq![p1].drop_last() =~= Seq::<Seq<char>>::empty());
    assert(age_key() != name_key()) by {
        assert(age_key().len() != name_key().len());
    }
    assert(seq![p1].last() == p1);
    assert(pairs.last() == p2);
    assert(lookup(seq![p1], name_key()) == Some(name));
    assert(lookup(pairs, name_key()) == Some(name));
    assert(lookup(pairs, age_key()) == Some(d));
    assert(unsigned_digits(d) == d);
    assert(parse_u8(d) == Some(age));
}

} // verus!
