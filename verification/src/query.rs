//! Query strings
//!
//! Reading and writing the values of one key in a location's query string,
//! leaving the other keys' pairs as they are.

use vstd::prelude::*;
use url::Url;

verus! {

/// A key-value pair of a query string.
#[derive(Debug)]
pub struct QueryPair {
    pub key: String,
    pub value: String,
}

/// Query pairs, as text.
pub type PairsView = Seq<(Seq<char>, Seq<char>)>;

pub open spec fn pair_view(p: QueryPair) -> (Seq<char>, Seq<char>) {
    (p.key@, p.value@)
}

pub open spec fn pairs_view(pairs: Seq<QueryPair>) -> PairsView {
    pairs.map_values(|p: QueryPair| pair_view(p))
}

pub open spec fn strings_view(values: Seq<String>) -> Seq<Seq<char>> {
    values.map_values(|v: String| v@)
}

/// The query pairs of the location `url`, decoded; `None` when `url` does not parse.
pub uninterp spec fn parsed_query_pairs(url: Seq<char>) -> Option<PairsView>;

/// The location `url` with its query replaced by `pairs`, encoded; `None`
/// when `url` does not parse.
pub uninterp spec fn url_with_pairs(url: Seq<char>, pairs: PairsView) -> Option<Seq<char>>;

/// Parses `url` with `Url::parse` and decodes its query with `Url::query_pairs`.
#[verifier::external_body]
fn url_query_pairs(url: &str) -> (res: Option<Vec<QueryPair>>)
    ensures
        res is None <==> parsed_query_pairs(url@) is None,
        res matches Some(v) ==> pairs_view(v@) == parsed_query_pairs(url@).unwrap(),
{
    match Url::parse(url) {
        Ok(u) => Some(u.query_pairs().into_owned().map(|(key, value)| QueryPair { key, value }).collect()),
        Err(_) => None,
    }
}

/// Parses `url` with `Url::parse`, replaces its query with `pairs` through
/// `Url::query_pairs_mut` (clearing, then extending) and serializes it.
#[verifier::external_body]
fn url_replace_pairs(url: &str, pairs: &Vec<QueryPair>) -> (res: Option<String>)
    ensures
        res is None <==> url_with_pairs(url@, pairs_view(pairs@)) is None,
        res matches Some(s) ==> s@ == url_with_pairs(url@, pairs_view(pairs@)).unwrap(),
{
    match Url::parse(url) {
        Ok(mut u) => {
            u.query_pairs_mut().clear().extend_pairs(pairs.iter().map(|p| (p.key.as_str(), p.value.as_str())));
            Some(u.into())
        },
        Err(_) => None,
    }
}

// ---------------------------------------------------------------------------
// Specifications

/// Values of the pairs with key `key`, in order.
pub open spec fn values_of(pairs: PairsView, key: Seq<char>) -> Seq<Seq<char>>
    decreases pairs.len(),
{
    if pairs.len() == 0 {
        Seq::empty()
    } else if pairs.last().0 == key {
        values_of(pairs.drop_last(), key).push(pairs.last().1)
    } else {
        values_of(pairs.drop_last(), key)
    }
}

/// The pairs whose key is not `key`, in order.
pub open spec fn without_key(pairs: PairsView, key: Seq<char>) -> PairsView
    decreases pairs.len(),
{
    if pairs.len() == 0 {
        pairs
    } else if pairs.last().0 == key {
        without_key(pairs.drop_last(), key)
    } else {
        without_key(pairs.drop_last(), key).push(pairs.last())
    }
}

/// A pair with key `key` for each of `values`.
pub open spec fn keyed(key: Seq<char>, values: Seq<Seq<char>>) -> PairsView {
    values.map_values(|v: Seq<char>| (key, v))
}

/// Rewriting the pairs of `key` as the pairs of `values`, in a prefix of the
/// pairs: the rewritten prefix, and whether `key` occurred in it. The pairs of
/// `values` take the place of the first pair of `key`, later pairs of `key`
/// are dropped.
pub open spec fn rewrite_prefix(pairs: PairsView, key: Seq<char>, values: Seq<Seq<char>>) -> (PairsView, bool)
    decreases pairs.len(),
{
    if pairs.len() == 0 {
        (Seq::empty(), false)
    } else {
        let (r, added) = rewrite_prefix(pairs.drop_last(), key, values);
        if pairs.last().0 != key {
            (r.push(pairs.last()), added)
        } else if added {
            (r, true)
        } else {
            (r + keyed(key, values), true)
        }
    }
}

/// The pairs with those of `key` rewritten as the pairs of `values`: in place
/// of the first pair of `key`, or at the end when `key` has none.
pub open spec fn rewrite_key(pairs: PairsView, key: Seq<char>, values: Seq<Seq<char>>) -> PairsView {
    let (r, added) = rewrite_prefix(pairs, key, values);
    if added {
        r
    } else {
        r + keyed(key, values)
    }
}

/// The pairs without those of `key`, followed by the pairs of `values`.
pub open spec fn replace_key(pairs: PairsView, key: Seq<char>, values: Seq<Seq<char>>) -> PairsView {
    without_key(pairs, key) + keyed(key, values)
}

// ---------------------------------------------------------------------------
// Lemmas

pub proof fn lemma_values_of_append(a: PairsView, b: PairsView, key: Seq<char>)
    ensures
        values_of(a + b, key) == values_of(a, key) + values_of(b, key),
        without_key(a + b, key) == without_key(a, key) + without_key(b, key),
    decreases b.len(),
{
    if b.len() == 0 {
        assert(a + b =~= a);
        assert(values_of(a, key) + values_of(b, key) =~= values_of(a, key));
        assert(without_key(a, key) + without_key(b, key) =~= without_key(a, key));
    } else {
        lemma_values_of_append(a, b.drop_last(), key);
        assert((a + b).drop_last() =~= a + b.drop_last());
        assert((a + b).last() == b.last());
        if b.last().0 == key {
            assert(values_of(a, key) + values_of(b.drop_last(), key).push(b.last().1)
                =~= (values_of(a, key) + values_of(b.drop_last(), key)).push(b.last().1));
        } else {
            assert(without_key(a, key) + without_key(b.drop_last(), key).push(b.last())
                =~= (without_key(a, key) + without_key(b.drop_last(), key)).push(b.last()));
        }
    }
}

pub proof fn lemma_keyed(key: Seq<char>, values: Seq<Seq<char>>)
    ensures
        values_of(keyed(key, values), key) == values,
        without_key(keyed(key, values), key) == PairsView::empty(),
    decreases values.len(),
{
    if values.len() > 0 {
        lemma_keyed(key, values.drop_last());
        assert(keyed(key, values).drop_last() =~= keyed(key, values.drop_last()));
        assert(values.drop_last().push(values.last()) =~= values);
    } else {
        assert(keyed(key, values) =~= PairsView::empty());
    }
}

pub proof fn lemma_without_key_free(pairs: PairsView, key: Seq<char>)
    ensures
        values_of(without_key(pairs, key), key) == Seq::<Seq<char>>::empty(),
        without_key(without_key(pairs, key), key) == without_key(pairs, key),
    decreases pairs.len(),
{
    if pairs.len() > 0 {
        lemma_without_key_free(pairs.drop_last(), key);
        if pairs.last().0 != key {
            let w = without_key(pairs.drop_last(), key).push(pairs.last());
            assert(w.drop_last() =~= without_key(pairs.drop_last(), key));
        }
    }
}

/// Values and other pairs of a rewritten prefix.
pub proof fn lemma_rewrite_prefix(pairs: PairsView, key: Seq<char>, values: Seq<Seq<char>>)
    ensures
        rewrite_prefix(pairs, key, values).1 == (values_of(pairs, key).len() > 0),
        values_of(rewrite_prefix(pairs, key, values).0, key) == (if rewrite_prefix(pairs, key, values).1 { values } else { Seq::empty() }),
        without_key(rewrite_prefix(pairs, key, values).0, key) == without_key(pairs, key),
    decreases pairs.len(),
{
    if pairs.len() > 0 {
        let d = pairs.drop_last();
        lemma_rewrite_prefix(d, key, values);
        let (r, added) = rewrite_prefix(d, key, values);
        let l = pairs.last();
        if l.0 != key {
            assert(r.push(l).drop_last() =~= r);
        } else if !added {
            lemma_values_of_append(r, keyed(key, values), key);
            lemma_keyed(key, values);
            assert(values_of(r, key) + values =~= values);
            assert(without_key(r, key) + PairsView::empty() =~= without_key(r, key));
        }
    }
}

// ---------------------------------------------------------------------------
// Pure logic

/// Copies a pair.
fn copy_pair(p: &QueryPair) -> (res: QueryPair)
    ensures
        pair_view(res) == pair_view(*p),
{
    QueryPair { key: p.key.clone(), value: p.value.clone() }
}

/// Appends a pair with key `key` for each of `values`.
fn push_keyed(out: &mut Vec<QueryPair>, key: &String, values: &Vec<String>)
    ensures
        pairs_view(final(out)@) == pairs_view(old(out)@) + keyed(key@, strings_view(values@)),
{
    let n = values.len();
    let mut i: usize = 0;
    while i < n
        invariant
            n == values@.len(),
            i <= n,
            pairs_view(out@) == pairs_view(old(out)@) + keyed(key@, strings_view(values@.subrange(0, i as int))),
        decreases n - i,
    {
        let ghost before = out@;
        out.push(QueryPair { key: key.clone(), value: values[i].clone() });
        proof {
            assert(strings_view(values@.subrange(0, i + 1)) =~= strings_view(values@.subrange(0, i as int)).push(values@[i as int]@));
            assert(pairs_view(out@) =~= pairs_view(before).push((key@, values@[i as int]@)));
            assert(keyed(key@, strings_view(values@.subrange(0, i + 1))) =~= keyed(key@, strings_view(values@.subrange(0, i as int))).push((key@, values@[i as int]@)));
        }
        i = i + 1;
    }
    assert(values@.subrange(0, n as int) =~= values@);
}

/// Values of the pairs with key `key`, in order.
pub fn values_for_key(pairs: &Vec<QueryPair>, key: &String) -> (res: Vec<String>)
    ensures
        strings_view(res@) == values_of(pairs_view(pairs@), key@),
{
    let mut res: Vec<String> = Vec::new();
    let n = pairs.len();
    let mut i: usize = 0;
    while i < n
        invariant
            n == pairs@.len(),
            i <= n,
            strings_view(res@) == values_of(pairs_view(pairs@.subrange(0, i as int)), key@),
        decreases n - i,
    {
        let ghost before = res@;
        proof {
            assert(pairs_view(pairs@.subrange(0, i + 1)).drop_last() =~= pairs_view(pairs@.subrange(0, i as int)));
        }
        if pairs[i].key == *key {
            res.push(pairs[i].value.clone());
            assert(strings_view(res@) =~= strings_view(before).push(pairs@[i as int].value@));
        }
        i = i + 1;
    }
    assert(pairs@.subrange(0, n as int) =~= pairs@);
    res
}

/// Rewrites the pairs of `key` as the pairs of `values`: in place of the
/// first pair of `key` (later ones are dropped), or at the end when `key`
/// has none. Other pairs are kept in order.
pub fn rewrite_key_pairs(pairs: &Vec<QueryPair>, key: &String, values: &Vec<String>) -> (res: Vec<QueryPair>)
    ensures
        pairs_view(res@) == rewrite_key(pairs_view(pairs@), key@, strings_view(values@)),
{
    let ghost vals = strings_view(values@);
    let mut res: Vec<QueryPair> = Vec::new();
    let mut added = false;
    let n = pairs.len();
    let mut i: usize = 0;
    while i < n
        invariant
            n == pairs@.len(),
            i <= n,
            vals == strings_view(values@),
            (pairs_view(res@), added) == rewrite_prefix(pairs_view(pairs@.subrange(0, i as int)), key@, vals),
        decreases n - i,
    {
        proof {
            assert(pairs_view(pairs@.subrange(0, i + 1)).drop_last() =~= pairs_view(pairs@.subrange(0, i as int)));
        }
        let pair = &pairs[i];
        if pair.key != *key {
            let ghost before = res@;
            res.push(copy_pair(pair));
            assert(pairs_view(res@) =~= pairs_view(before).push(pair_view(*pair)));
        } else if !added {
            added = true;
            push_keyed(&mut res, key, values);
        }
        i = i + 1;
    }
    assert(pairs@.subrange(0, n as int) =~= pairs@);
    if !added {
        push_keyed(&mut res, key, values);
    }
    res
}

/// The pairs without those of `key`, followed by a pair for each of `values`.
pub fn replace_key_pairs(pairs: &Vec<QueryPair>, key: &String, values: &Vec<String>) -> (res: Vec<QueryPair>)
    ensures
        pairs_view(res@) == replace_key(pairs_view(pairs@), key@, strings_view(values@)),
{
    let mut res: Vec<QueryPair> = Vec::new();
    let n = pairs.len();
    let mut i: usize = 0;
    while i < n
        invariant
            n == pairs@.len(),
            i <= n,
            pairs_view(res@) == without_key(pairs_view(pairs@.subrange(0, i as int)), key@),
        decreases n - i,
    {
        proof {
            assert(pairs_view(pairs@.subrange(0, i + 1)).drop_last() =~= pairs_view(pairs@.subrange(0, i as int)));
        }
        let pair = &pairs[i];
        if pair.key != *key {
            let ghost before = res@;
            res.push(copy_pair(pair));
            assert(pairs_view(res@) =~= pairs_view(before).push(pair_view(*pair)));
        }
        i = i + 1;
    }
    assert(pairs@.subrange(0, n as int) =~= pairs@);
    push_keyed(&mut res, key, values);
    res
}

// ---------------------------------------------------------------------------
// Locations

/// The values of `key` in the query of the location `url`; `None` when the
/// location does not parse.
pub fn query_values(url: &str, key: &String) -> (res: Option<Vec<String>>)
    ensures
        res is None <==> parsed_query_pairs(url@) is None,
        res matches Some(v) ==> strings_view(v@) == values_of(parsed_query_pairs(url@).unwrap(), key@),
{
    match url_query_pairs(url) {
        Some(pairs) => Some(values_for_key(&pairs, key)),
        None => None,
    }
}

/// The location `url` with the values of `key` in its query rewritten as
/// `values` (see [`rewrite_key_pairs`]); `None` when the location does not
/// parse.
pub fn write_query_values(url: &str, key: &String, values: &Vec<String>) -> (res: Option<String>)
    ensures
        parsed_query_pairs(url@) is None ==> res is None,
        parsed_query_pairs(url@) matches Some(pairs) ==> {
            let new_url = url_with_pairs(url@, rewrite_key(pairs, key@, strings_view(values@)));
            &&& res is None <==> new_url is None
            &&& res matches Some(s) ==> s@ == new_url.unwrap()
        },
{
    match url_query_pairs(url) {
        Some(pairs) => {
            let new_pairs = rewrite_key_pairs(&pairs, key, values);
            url_replace_pairs(url, &new_pairs)
        },
        None => None,
    }
}

/// The location `url` with the pairs of `key` in its query removed and a
/// pair for each of `values` added at the end; `None` when the location does
/// not parse.
pub fn replace_query_values(url: &str, key: &String, values: &Vec<String>) -> (res: Option<String>)
    ensures
        parsed_query_pairs(url@) is None ==> res is None,
        parsed_query_pairs(url@) matches Some(pairs) ==> {
            let new_url = url_with_pairs(url@, replace_key(pairs, key@, strings_view(values@)));
            &&& res is None <==> new_url is None
            &&& res matches Some(s) ==> s@ == new_url.unwrap()
        },
{
    match url_query_pairs(url) {
        Some(pairs) => {
            let new_pairs = replace_key_pairs(&pairs, key, values);
            url_replace_pairs(url, &new_pairs)
        },
        None => None,
    }
}

// ---------------------------------------------------------------------------
// Laws

/// Reading the values of a key after rewriting them gives the written values,
/// and the pairs of other keys are unchanged.
pub proof fn law_rewrite_read_back(pairs: PairsView, key: Seq<char>, values: Seq<Seq<char>>)
    ensures
        values_of(rewrite_key(pairs, key, values), key) == values,
        without_key(rewrite_key(pairs, key, values), key) == without_key(pairs, key),
{
    lemma_rewrite_prefix(pairs, key, values);
    let (r, added) = rewrite_prefix(pairs, key, values);
    if !added {
        lemma_values_of_append(r, keyed(key, values), key);
        lemma_keyed(key, values);
        assert(Seq::<Seq<char>>::empty() + values =~= values);
        assert(without_key(r, key) + PairsView::empty() =~= without_key(r, key));
    }
}

/// Reading the values of a key after replacing them gives the written values,
/// and the pairs of other keys are unchanged.
pub proof fn law_replace_read_back(pairs: PairsView, key: Seq<char>, values: Seq<Seq<char>>)
    ensures
        values_of(replace_key(pairs, key, values), key) == values,
        without_key(replace_key(pairs, key, values), key) == without_key(pairs, key),
{
    lemma_values_of_append(without_key(pairs, key), keyed(key, values), key);
    lemma_keyed(key, values);
    lemma_without_key_free(pairs, key);
    assert(Seq::<Seq<char>>::empty() + values =~= values);
    assert(without_key(pairs, key) + PairsView::empty() =~= without_key(pairs, key));
}

// ---------------------------------------------------------------------------
// Parsing the values of a query

/// Query parse
pub trait QueryParse {
    /// Value
    type Value;

    /// Parses the value from the query
    fn parse(&self) -> Self::Value;
}

/// Query write
pub trait QueryWrite<T> {
    /// Writes the value back into the query
    fn write(&self, new_value: T);
}

/// Error parsing one of the values of a query: its index, the value, and
/// the parser's error.
#[derive(Debug)]
pub struct QueryParseError<E> {
    idx: usize,
    value: String,
    err: E,
}

impl<E> QueryParseError<E> {
    pub closed spec fn idx_spec(&self) -> usize {
        self.idx
    }

    pub closed spec fn value_spec(&self) -> Seq<char> {
        self.value@
    }

    pub closed spec fn err_spec(&self) -> E {
        self.err
    }

    /// Index of the value that could not be parsed
    pub fn idx(&self) -> (res: usize)
        ensures
            res == self.idx_spec(),
    {
        self.idx
    }

    /// The value that could not be parsed
    pub fn value(&self) -> (res: &String)
        ensures
            res@ == self.value_spec(),
    {
        &self.value
    }

    /// The index, the value and the parser's error
    pub fn into_parts(self) -> (res: (usize, String, E))
        ensures
            res.0 == self.idx_spec(),
            res.1@ == self.value_spec(),
            res.2 == self.err_spec(),
    {
        (self.idx, self.value, self.err)
    }

    /// The parser's error
    pub fn err(&self) -> (res: &E)
        ensures
            *res == self.err_spec(),
    {
        &self.err
    }
}

/// Index of the first error among `rs`, if any.
pub open spec fn first_err<T, E>(rs: Seq<Result<T, E>>) -> Option<int>
    decreases rs.len(),
{
    if rs.len() == 0 {
        None
    } else {
        match first_err(rs.drop_last()) {
            Some(i) => Some(i),
            None => if rs.last() is Err { Some(rs.len() - 1) } else { None },
        }
    }
}

/// The successful results among `rs`, in order.
pub open spec fn oks<T, E>(rs: Seq<Result<T, E>>) -> Seq<T>
    decreases rs.len(),
{
    if rs.len() == 0 {
        Seq::empty()
    } else {
        match rs.last() {
            Ok(v) => oks(rs.drop_last()).push(v),
            Err(_) => oks(rs.drop_last()),
        }
    }
}

proof fn lemma_first_err_prefix<T, E>(rs: Seq<Result<T, E>>, k: int)
    requires
        0 <= k < rs.len(),
        first_err(rs.subrange(0, k)) is None,
    ensures
        rs[k] is Err ==> first_err(rs.subrange(0, k + 1)) == Some(k),
        rs[k] is Ok ==> first_err(rs.subrange(0, k + 1)) is None,
        rs[k] matches Ok(v) ==> oks(rs.subrange(0, k + 1)) == oks(rs.subrange(0, k)).push(v),
{
    assert(rs.subrange(0, k + 1).drop_last() =~= rs.subrange(0, k));
}

proof fn lemma_first_err_extends<T, E>(rs: Seq<Result<T, E>>, k: int)
    requires
        0 <= k <= rs.len(),
        first_err(rs.subrange(0, k)) is Some,
    ensures
        first_err(rs) == first_err(rs.subrange(0, k)),
    decreases rs.len() - k,
{
    if k < rs.len() {
        assert(rs.subrange(0, k + 1).drop_last() =~= rs.subrange(0, k));
        lemma_first_err_extends(rs, k + 1);
    } else {
        assert(rs.subrange(0, k) =~= rs);
    }
}

/// Collects the parsed values of a query: all of them, or the error of the
/// first one that could not be parsed, with its index and value.
pub fn collect_parsed<T, E>(values: &Vec<String>, results: Vec<Result<T, E>>) -> (res: Result<Vec<T>, QueryParseError<E>>)
    requires
        values@.len() == results@.len(),
    ensures
        first_err(results@) is None ==> (res matches Ok(v) && v@ == oks(results@)),
        first_err(results@) matches Some(i) ==> (res matches Err(e) && e.idx_spec() == i
            && e.value_spec() == values@[i]@ && results@[i] == Err::<T, E>(e.err_spec())),
{
    let ghost all = results@;
    let mut rest = results;
    let mut out: Vec<T> = Vec::new();
    let n = values.len();
    let mut k: usize = 0;
    while k < n
        invariant
            n == values@.len(),
            n == all.len(),
            all == results@,
            k <= n,
            rest@ == all.subrange(k as int, n as int),
            first_err(all.subrange(0, k as int)) is None,
            out@ == oks(all.subrange(0, k as int)),
        decreases n - k,
    {
        proof {
            lemma_first_err_prefix(all, k as int);
        }
        let r = rest.remove(0);
        assert(r == all[k as int]);
        match r {
            Ok(v) => {
                out.push(v);
            },
            Err(err) => {
                proof {
                    lemma_first_err_extends(all, k + 1);
                }
                assert(first_err(all) == Some(k as int));
                let value = values[k].clone();
                assert(value@ == values@[k as int]@);
                return Err(QueryParseError { idx: k, value, err });
            },
        }
        k = k + 1;
    }
    assert(all.subrange(0, n as int) =~= all);
    Ok(out)
}

/// Keeps the values of a query that could be parsed, in order.
pub fn keep_parsed<T, E>(results: Vec<Result<T, E>>) -> (res: Vec<T>)
    ensures
        res@ == oks(results@),
{
    let ghost all = results@;
    let mut results = results;
    let mut out: Vec<T> = Vec::new();
    let n = results.len();
    let mut k: usize = 0;
    while k < n
        invariant
            n == all.len(),
            k <= n,
            results@ == all.subrange(k as int, n as int),
            out@ == oks(all.subrange(0, k as int)),
        decreases n - k,
    {
        proof {
            assert(all.subrange(0, k + 1).drop_last() =~= all.subrange(0, k as int));
        }
        let r = results.remove(0);
        assert(r == all[k as int]);
        match r {
            Ok(v) => {
                out.push(v);
            },
            Err(_) => {},
        }
        k = k + 1;
    }
    assert(all.subrange(0, n as int) =~= all);
    out
}

} // verus!
