//! The record store: user records kept in insertion order, appended to and
//! listed through a filter on name and age.
use vstd::prelude::*;
use crate::text::{
    chars_eq, contains, contains_chars, parse_u8, parse_u8_chars, split, split_chars, to_chars,
};
use crate::json::{age_key, name_key};

verus! {

/// A stored user: a name and an age.
pub struct Record {
    pub name: String,
    pub age: u8,
}

impl View for Record {
    type V = (Seq<char>, u8);

    open spec fn view(&self) -> (Seq<char>, u8) {
        (self.name@, self.age)
    }
}

impl Record {
    /// A record; its name is never empty.
    pub fn new(name: String, age: u8) -> (r: Record)
        requires
            name@.len() > 0,
        ensures
            r@ == (name@, age),
    {
        Record { name, age }
    }

    /// A copy of this record.
    pub fn copy(&self) -> (r: Record)
        ensures
            r@ == self@,
    {
        Record { name: self.name.clone(), age: self.age }
    }
}

/// The filters of a listing: a substring of the name, an exact age.
pub struct UserFilter {
    pub name: Option<String>,
    pub age: Option<u8>,
}

pub open spec fn opt_view(o: Option<String>) -> Option<Seq<char>> {
    match o {
        Some(s) => Some(s@),
        None => None,
    }
}

impl View for UserFilter {
    type V = (Option<Seq<char>>, Option<u8>);

    open spec fn view(&self) -> (Option<Seq<char>>, Option<u8>) {
        (opt_view(self.name), self.age)
    }
}

/// Whether record `r` passes filter `f`: the name filter, where present, is
/// a substring of the name, and the age filter, where present, equals the age.
pub open spec fn passes(f: (Option<Seq<char>>, Option<u8>), r: (Seq<char>, u8)) -> bool {
    &&& (f.0 matches Some(n) ==> contains(r.0, n))
    &&& (f.1 matches Some(a) ==> r.1 == a)
}

/// The records of `s` that pass `f`, in their order in `s`.
pub open spec fn filtered(s: Seq<(Seq<char>, u8)>, f: (Option<Seq<char>>, Option<u8>)) -> Seq<
    (Seq<char>, u8),
> {
    s.filter(passes_fn(f))
}

pub open spec fn passes_fn(f: (Option<Seq<char>>, Option<u8>)) -> spec_fn((Seq<char>, u8)) -> bool {
    |r: (Seq<char>, u8)| passes(f, r)
}

/// The filter that a query string `k=v&k=v...` asks for. Each pair is cut at
/// `=`; a pair with no `=` is skipped; a later `name` or `age` replaces an
/// earlier one; an `age` that does not parse as a `u8` clears the age filter.
pub open spec fn query_filter(pairs: Seq<Seq<char>>) -> (Option<Seq<char>>, Option<u8>)
    decreases pairs.len(),
{
    if pairs.len() == 0 {
        (None, None)
    } else {
        let f = query_filter(pairs.drop_last());
        let parts = split(pairs.last(), '=');
        if parts.len() >= 2 && parts[0] == name_key() {
            (Some(parts[1]), f.1)
        } else if parts.len() >= 2 && parts[0] == age_key() {
            (f.0, parse_u8(parts[1]))
        } else {
            f
        }
    }
}

/// The filter that the query string `query` asks for.
pub open spec fn user_query(query: Seq<char>) -> (Option<Seq<char>>, Option<u8>) {
    query_filter(split(query, '&'))
}

/// Reads the filter of a `GET /users` query string.
pub fn parse_user_query(query: &str) -> (r: UserFilter)
    ensures
        r@ == user_query(query@),
{
    let chars = to_chars(query);
    let pieces = split_chars(&chars, '&');
    let ghost pairs = split(chars@, '&');
    let name_k: Vec<char> = vec!['n', 'a', 'm', 'e'];
    let age_k: Vec<char> = vec!['a', 'g', 'e'];
    proof {
        assert(name_k@ =~= name_key());
        assert(age_k@ =~= age_key());
        assert(pairs.take(0) =~= Seq::<Seq<char>>::empty());
    }
    let mut name: Option<String> = None;
    let mut age: Option<u8> = None;
    let mut i: usize = 0;
    while i < pieces.len()
        invariant
            pairs == split(chars@, '&'),
            chars@ == query@,
            name_k@ == name_key(),
            age_k@ == age_key(),
            pieces@.len() == pairs.len(),
            forall|j: int| 0 <= j < pieces@.len() ==> #[trigger] pieces@[j]@ == pairs[j],
            i <= pieces@.len(),
            (opt_view(name), age) == query_filter(pairs.take(i as int)),
        decreases pieces@.len() - i,
    {
        proof {
            assert(pairs.take(i + 1).drop_last() =~= pairs.take(i as int));
            assert(pairs.take(i + 1).last() == pieces@[i as int]@);
        }
        let parts = split_chars(&pieces[i], '=');
        if parts.len() >= 2 {
            if chars_eq(&parts[0], &name_k) {
                name = Some(crate::text::chars_to_string(&parts[1]));
            } else if chars_eq(&parts[0], &age_k) {
                age = parse_u8_chars(&parts[1]);
            }
        }
        i = i + 1;
    }
    proof {
        assert(pairs.take(pieces@.len() as int) =~= pairs);
    }
    UserFilter { name, age }
}

pub open spec fn opt_chars(o: Option<Vec<char>>) -> Option<Seq<char>> {
    match o {
        Some(v) => Some(v@),
        None => None,
    }
}

/// The records of the store, in insertion order.
pub struct RecordStore {
    records: Vec<Record>,
}

pub open spec fn records_view(v: Seq<Record>) -> Seq<(Seq<char>, u8)> {
    v.map_values(|r: Record| r@)
}

impl View for RecordStore {
    type V = Seq<(Seq<char>, u8)>;

    closed spec fn view(&self) -> Seq<(Seq<char>, u8)> {
        records_view(self.records@)
    }
}

impl RecordStore {
    /// An empty store.
    pub fn new() -> (r: RecordStore)
        ensures
            r@ == Seq::<(Seq<char>, u8)>::empty(),
    {
        let r = RecordStore { records: Vec::new() };
        proof {
            assert(r@ =~= Seq::<(Seq<char>, u8)>::empty());
        }
        r
    }

    /// The number of records held.
    pub fn len(&self) -> (r: usize)
        ensures
            r == self@.len(),
    {
        self.records.len()
    }

    /// Adds `record` after all records held.
    pub fn append(&mut self, record: Record)
        ensures
            final(self)@ == old(self)@.push(record@),
    {
        self.records.push(record);
        proof {
            assert(final(self)@ =~= old(self)@.push(record@));
        }
    }

    /// The records that pass `filter`, in insertion order.
    pub fn list(&self, filter: &UserFilter) -> (r: Vec<Record>)
        ensures
            records_view(r@) == filtered(self@, filter@),
    {
        let name_chars: Option<Vec<char>> = match &filter.name {
            Some(s) => Some(to_chars(s.as_str())),
            None => None,
        };
        let ghost f = filter@;
        proof {
            assert(opt_chars(name_chars) == f.0);
        }
        let mut out: Vec<Record> = Vec::new();
        let mut i: usize = 0;
        proof {
            assert(self.records@.take(0) =~= Seq::<Record>::empty());
            assert(records_view(out@) =~= filtered(records_view(self.records@.take(0)), f));
        }
        while i < self.records.len()
            invariant
                f == filter@,
                opt_chars(name_chars) == f.0,
                i <= self.records@.len(),
                records_view(out@) == filtered(records_view(self.records@.take(i as int)), f),
            decreases self.records@.len() - i,
        {
            let rec = &self.records[i];
            let ghost pre = records_view(self.records@.take(i as int));
            let ghost cur = records_view(self.records@.take(i + 1));
            proof {
                assert(cur.drop_last() =~= pre);
                assert(cur.last() == rec@);
            }
            let name_ok = match &name_chars {
                Some(n) => contains_chars(&to_chars(rec.name.as_str()), n),
                None => true,
            };
            let age_ok = match filter.age {
                Some(a) => rec.age == a,
                None => true,
            };
            proof {
                assert(passes(f, rec@) == (name_ok && age_ok));
                assert(cur.len() == i + 1);
                assert(passes_fn(f)(cur.last()) == passes(f, cur.last()));
                assert(cur =~= pre.push(rec@));
                pre.lemma_filter_push(rec@, passes_fn(f));
                assert(filtered(cur, f) == (if passes(f, cur.last()) {
                    filtered(pre, f).push(cur.last())
                } else {
                    filtered(pre, f)
                }));
            }
            let ghost old_out = out@;
            if name_ok && age_ok {
                out.push(rec.copy());
                proof {
                    assert(records_view(out@) =~= records_view(old_out).push(rec@));
                }
            }
            i = i + 1;
        }
        proof {
            assert(self.records@.take(i as int) =~= self.records@);
        }
        out
    }
}


/// Listing returns only matches: every listed record is held by the store
/// and passes the filter (its name contains the name filter, case-sensitive,
/// and its age equals the age filter); a record that passes is listed.
pub proof fn lemma_listed_records_pass(s: Seq<(Seq<char>, u8)>, f: (Option<Seq<char>>, Option<u8>))
    ensures
        forall|i: int|
            0 <= i < filtered(s, f).len() ==> passes(f, #[trigger] filtered(s, f)[i]) && s.contains(
                filtered(s, f)[i],
            ),
        forall|r: (Seq<char>, u8)| s.contains(r) && passes(f, r) ==> #[trigger] filtered(s, f).contains(r),
{
    assert forall|i: int| 0 <= i < filtered(s, f).len() implies passes(
        f,
        #[trigger] filtered(s, f)[i],
    ) && s.contains(filtered(s, f)[i]) by {
        s.lemma_filter_pred(passes_fn(f), i);
        assert(filtered(s, f).contains(filtered(s, f)[i]));
        s.lemma_filter_contains_rev(passes_fn(f), filtered(s, f)[i]);
    }
    assert forall|r: (Seq<char>, u8)| s.contains(r) && passes(f, r) implies #[trigger] filtered(
        s,
        f,
    ).contains(r) by {
        let i = choose|i: int| 0 <= i < s.len() && s[i] == r;
        s.lemma_filter_contains(passes_fn(f), i);
    }
}

} // verus!
