//! A JSON document model for editing agent configuration files, with a
//! mathematical view and member-level operations.

use vstd::prelude::*;
use crate::error::Error;
use crate::text::str_eq;

verus! {

broadcast use vstd::std_specs::vec::axiom_vec_index_decreases;

/// A JSON value. Numbers are kept as their text; object members keep their
/// order.
#[derive(Debug)]
pub enum Json {
    Null,
    Bool(bool),
    Number(String),
    Str(String),
    Array(Vec<Json>),
    Object(Vec<(String, Json)>),
}

/// The mathematical value of a [`Json`].
pub enum JsonV {
    Null,
    Bool(bool),
    Number(Seq<char>),
    Str(Seq<char>),
    Array(Seq<JsonV>),
    Object(Seq<(Seq<char>, JsonV)>),
}

/// The view of a JSON value.
pub open spec fn jv(j: Json) -> JsonV
    decreases j,
{
    match j {
        Json::Null => JsonV::Null,
        Json::Bool(b) => JsonV::Bool(b),
        Json::Number(s) => JsonV::Number(s@),
        Json::Str(s) => JsonV::Str(s@),
        Json::Array(v) => JsonV::Array(
            Seq::new(v@.len(), |i: int| if 0 <= i < v@.len() { jv(v[i]) } else { JsonV::Null }),
        ),
        Json::Object(v) => JsonV::Object(
            Seq::new(
                v@.len(),
                |i: int|
                    if 0 <= i < v@.len() {
                        (v[i].0@, jv(v[i].1))
                    } else {
                        (Seq::empty(), JsonV::Null)
                    },
            ),
        ),
    }
}

impl View for Json {
    type V = JsonV;

    open spec fn view(&self) -> JsonV {
        jv(*self)
    }
}

/// The views of a sequence of members.
pub open spec fn members_view(s: Seq<(String, Json)>) -> Seq<(Seq<char>, JsonV)> {
    Seq::new(s.len(), |i: int| (s[i].0@, jv(s[i].1)))
}

/// The views of a sequence of values.
pub open spec fn values_view(s: Seq<Json>) -> Seq<JsonV> {
    Seq::new(s.len(), |i: int| jv(s[i]))
}

pub proof fn lemma_object_view(v: Vec<(String, Json)>)
    ensures
        jv(Json::Object(v)) == JsonV::Object(members_view(v@)),
{
    if let JsonV::Object(s) = jv(Json::Object(v)) {
        assert(s =~= members_view(v@));
    }
}

pub proof fn lemma_array_view(v: Vec<Json>)
    ensures
        jv(Json::Array(v)) == JsonV::Array(values_view(v@)),
{
    if let JsonV::Array(s) = jv(Json::Array(v)) {
        assert(s =~= values_view(v@));
    }
}

/// Whether two JSON values are equal, member by member and element by element.
pub fn json_eq(a: &Json, b: &Json) -> (r: bool)
    ensures
        r == (a@ == b@),
    decreases a,
{
    match (a, b) {
        (Json::Null, Json::Null) => true,
        (Json::Bool(x), Json::Bool(y)) => *x == *y,
        (Json::Number(x), Json::Number(y)) => str_eq(x.as_str(), y.as_str()),
        (Json::Str(x), Json::Str(y)) => str_eq(x.as_str(), y.as_str()),
        (Json::Array(x), Json::Array(y)) => {
            proof {
                lemma_array_view(*x);
                lemma_array_view(*y);
            }
            if x.len() != y.len() {
                assert(values_view(x@).len() != values_view(y@).len());
                return false;
            }
            let mut i: usize = 0;
            while i < x.len()
                invariant
                    x.len() == y.len(),
                    0 <= i <= x.len(),
                    forall|k: int| 0 <= k < i ==> jv(#[trigger] x@[k]) == jv(y@[k]),
                    *a == Json::Array(*x),
                    a@ == JsonV::Array(values_view(x@)),
                    b@ == JsonV::Array(values_view(y@)),
                decreases x.len() - i,
            {
                assert(decreases_to!(*a => *x));
                assert(decreases_to!(*x => x[i as int]));
                if !json_eq(&x[i], &y[i]) {
                    assert(values_view(x@)[i as int] != values_view(y@)[i as int]);
                    return false;
                }
                i = i + 1;
            }
            assert(values_view(x@) =~= values_view(y@));
            true
        },
        (Json::Object(x), Json::Object(y)) => {
            proof {
                lemma_object_view(*x);
                lemma_object_view(*y);
            }
            if x.len() != y.len() {
                assert(members_view(x@).len() != members_view(y@).len());
                return false;
            }
            let mut i: usize = 0;
            while i < x.len()
                invariant
                    x.len() == y.len(),
                    0 <= i <= x.len(),
                    forall|k: int|
                        0 <= k < i ==> (#[trigger] x@[k]).0@ == y@[k].0@ && jv(x@[k].1) == jv(y@[k].1),
                    *a == Json::Object(*x),
                    a@ == JsonV::Object(members_view(x@)),
                    b@ == JsonV::Object(members_view(y@)),
                decreases x.len() - i,
            {
                assert(decreases_to!(*x => x[i as int]));
                if !str_eq(x[i].0.as_str(), y[i].0.as_str()) {
                    assert(members_view(x@)[i as int] != members_view(y@)[i as int]);
                    return false;
                }
                if !json_eq(&x[i].1, &y[i].1) {
                    assert(members_view(x@)[i as int] != members_view(y@)[i as int]);
                    return false;
                }
                i = i + 1;
            }
            assert(members_view(x@) =~= members_view(y@));
            true
        },
        _ => false,
    }
}

/// The index of the first member named `k`, or the length when there is none.
pub open spec fn member_index(ms: Seq<(Seq<char>, JsonV)>, k: Seq<char>) -> int
    decreases ms.len(),
{
    if ms.len() == 0 {
        0
    } else if ms[0].0 == k {
        0
    } else {
        1 + member_index(ms.drop_first(), k)
    }
}

/// The value of the first member named `k`.
pub open spec fn member(ms: Seq<(Seq<char>, JsonV)>, k: Seq<char>) -> Option<JsonV> {
    let i = member_index(ms, k);
    if i < ms.len() {
        Some(ms[i].1)
    } else {
        None
    }
}

/// `ms` with the first member named `k` set to `v`, or with `(k, v)` appended.
pub open spec fn set_member(ms: Seq<(Seq<char>, JsonV)>, k: Seq<char>, v: JsonV) -> Seq<(Seq<char>, JsonV)> {
    let i = member_index(ms, k);
    if i < ms.len() {
        ms.update(i, (k, v))
    } else {
        ms.push((k, v))
    }
}

/// `ms` without any member named `k`.
pub open spec fn without_member(ms: Seq<(Seq<char>, JsonV)>, k: Seq<char>) -> Seq<(Seq<char>, JsonV)>
    decreases ms.len(),
{
    if ms.len() == 0 {
        ms
    } else if ms.last().0 == k {
        without_member(ms.drop_last(), k)
    } else {
        without_member(ms.drop_last(), k).push(ms.last())
    }
}

pub proof fn lemma_member_index(ms: Seq<(Seq<char>, JsonV)>, k: Seq<char>)
    ensures
        0 <= member_index(ms, k) <= ms.len(),
        member_index(ms, k) < ms.len() ==> ms[member_index(ms, k)].0 == k,
        forall|j: int| 0 <= j < member_index(ms, k) ==> (#[trigger] ms[j]).0 != k,
    decreases ms.len(),
{
    if ms.len() > 0 && ms[0].0 != k {
        lemma_member_index(ms.drop_first(), k);
        assert forall|j: int| 0 <= j < member_index(ms, k) implies (#[trigger] ms[j]).0 != k by {
            if j > 0 {
                assert(ms[j] == ms.drop_first()[j - 1]);
            }
        }
    }
}

pub proof fn lemma_member_index_unique(ms: Seq<(Seq<char>, JsonV)>, k: Seq<char>, i: int)
    requires
        0 <= i <= ms.len(),
        i < ms.len() ==> ms[i].0 == k,
        forall|j: int| 0 <= j < i ==> (#[trigger] ms[j]).0 != k,
    ensures
        member_index(ms, k) == i,
{
    lemma_member_index(ms, k);
    let m = member_index(ms, k);
    if m < i {
        assert(ms[m].0 != k);
    } else if i < m {
        assert(ms[i].0 != k);
    }
}

/// Members after `set_member`: `k` now holds `v`, every other name is unchanged.
pub proof fn lemma_set_member(ms: Seq<(Seq<char>, JsonV)>, k: Seq<char>, v: JsonV)
    ensures
        member(set_member(ms, k, v), k) == Some(v),
        forall|k2: Seq<char>| k2 != k ==> #[trigger] member(set_member(ms, k, v), k2) == member(ms, k2),
{
    lemma_member_index(ms, k);
    let i = member_index(ms, k);
    let ns = set_member(ms, k, v);
    lemma_member_index_unique(ns, k, i);
    assert forall|k2: Seq<char>| k2 != k implies #[trigger] member(ns, k2) == member(ms, k2) by {
        lemma_member_index(ms, k2);
        let i2 = member_index(ms, k2);
        if i2 < ms.len() {
            assert(i2 != i);
            lemma_member_index_unique(ns, k2, i2);
        } else {
            assert forall|j: int| 0 <= j < ns.len() implies (#[trigger] ns[j]).0 != k2 by {
                if j < ms.len() && j != i {
                    assert(ns[j] == ms[j]);
                }
            }
            lemma_member_index_unique(ns, k2, ns.len() as int);
        }
    }
}

/// Members after `without_member`: `k` is gone, every other name is unchanged.
pub proof fn lemma_without_member(ms: Seq<(Seq<char>, JsonV)>, k: Seq<char>)
    ensures
        member(without_member(ms, k), k) is None,
        forall|k2: Seq<char>| k2 != k ==> #[trigger] member(without_member(ms, k), k2) == member(ms, k2),
    decreases ms.len(),
{
    if ms.len() > 0 {
        let init = ms.drop_last();
        lemma_without_member(init, k);
        let w = without_member(init, k);
        lemma_member_index(w, k);
        lemma_member_index(ms, k);
        lemma_member_index(init, k);
        if ms.last().0 == k {
            assert forall|k2: Seq<char>| k2 != k implies #[trigger] member(without_member(ms, k), k2)
                == member(ms, k2) by {
                lemma_member_index(init, k2);
                let i2 = member_index(init, k2);
                if i2 < init.len() {
                    assert(ms[i2] == init[i2]);
                    assert forall|j: int| 0 <= j < i2 implies (#[trigger] ms[j]).0 != k2 by {
                        assert(ms[j] == init[j]);
                    }
                    lemma_member_index_unique(ms, k2, i2);
                } else {
                    assert forall|j: int| 0 <= j < ms.len() implies (#[trigger] ms[j]).0 != k2 by {
                        if j < init.len() {
                            assert(ms[j] == init[j]);
                        }
                    }
                    lemma_member_index_unique(ms, k2, ms.len() as int);
                }
            }
        } else {
            let nw = w.push(ms.last());
            assert forall|j: int| 0 <= j < nw.len() implies (#[trigger] nw[j]).0 != k by {
                if j < w.len() {
                    assert(nw[j] == w[j]);
                }
            }
            lemma_member_index_unique(nw, k, nw.len() as int);
            assert forall|k2: Seq<char>| k2 != k implies #[trigger] member(without_member(ms, k), k2)
                == member(ms, k2) by {
                lemma_member_index(init, k2);
                lemma_member_index(w, k2);
                let i2 = member_index(init, k2);
                let iw = member_index(w, k2);
                if iw < w.len() {
                    assert(nw[iw] == w[iw]);
                    assert forall|j: int| 0 <= j < iw implies (#[trigger] nw[j]).0 != k2 by {
                        assert(nw[j] == w[j]);
                    }
                    lemma_member_index_unique(nw, k2, iw);
                    if i2 < init.len() {
                        assert(ms[i2] == init[i2]);
                        assert forall|j: int| 0 <= j < i2 implies (#[trigger] ms[j]).0 != k2 by {
                            assert(ms[j] == init[j]);
                        }
                        lemma_member_index_unique(ms, k2, i2);
                    }
                } else {
                    assert(member(w, k2) == member(init, k2));
                    assert forall|j: int| 0 <= j < w.len() implies (#[trigger] nw[j]).0 != k2 by {
                        assert(nw[j] == w[j]);
                    }
                    assert forall|j: int| 0 <= j < init.len() implies (#[trigger] ms[j]).0 != k2 by {
                        assert(ms[j] == init[j]);
                    }
                    if ms.last().0 == k2 {
                        lemma_member_index_unique(nw, k2, w.len() as int);
                        lemma_member_index_unique(ms, k2, init.len() as int);
                    } else {
                        lemma_member_index_unique(nw, k2, nw.len() as int);
                        lemma_member_index_unique(ms, k2, ms.len() as int);
                    }
                }
            }
        }
    }
}

/// The position of the first member named `k` in `ms`, or its length.
pub fn find_member(ms: &Vec<(String, Json)>, k: &str) -> (r: usize)
    ensures
        r == member_index(members_view(ms@), k@),
{
    let ghost mv = members_view(ms@);
    let mut i: usize = 0;
    while i < ms.len()
        invariant
            mv == members_view(ms@),
            0 <= i <= ms.len(),
            forall|j: int| 0 <= j < i ==> (#[trigger] mv[j]).0 != k@,
        decreases ms.len() - i,
    {
        if str_eq(ms[i].0.as_str(), k) {
            proof {
                lemma_member_index_unique(mv, k@, i as int);
            }
            return i;
        }
        i = i + 1;
    }
    proof {
        lemma_member_index_unique(mv, k@, ms.len() as int);
    }
    i
}

/// Removes every member named `k`; tells whether one was there.
pub fn remove_member(ms: &mut Vec<(String, Json)>, k: &str) -> (removed: bool)
    ensures
        members_view(final(ms)@) == without_member(members_view(old(ms)@), k@),
        removed == (member(members_view(old(ms)@), k@) is Some),
{
    let mut kept: Vec<(String, Json)> = Vec::new();
    let mut removed = false;
    let mut src: Vec<(String, Json)> = Vec::new();
    std::mem::swap(&mut src, ms);
    let ghost sv = src@;
    let n = src.len();
    let mut idx: usize = 0;
    while idx < n
        invariant
            n == sv.len(),
            0 <= idx <= n,
            src@ == sv.subrange(idx as int, n as int),
            members_view(kept@) == without_member(members_view(sv.take(idx as int)), k@),
            removed == (member_index(members_view(sv.take(idx as int)), k@) < idx),
        decreases n - idx,
    {
        let m = src.remove(0);
        assert(m == sv[idx as int]);
        let ghost before = sv.take(idx as int);
        let ghost after = sv.take(idx + 1);
        let ghost bv = members_view(before);
        let ghost av = members_view(after);
        proof {
            assert(src@ =~= sv.subrange(idx + 1, n as int));
            assert(after.drop_last() =~= before);
            assert(av.drop_last() =~= bv);
            assert(av.last() == (m.0@, jv(m.1)));
            lemma_member_index(bv, k@);
            lemma_member_index(av, k@);
            assert forall|j: int| 0 <= j < idx implies #[trigger] av[j] == bv[j] by {}
        }
        if str_eq(m.0.as_str(), k) {
            proof {
                if !removed {
                    lemma_member_index_unique(av, k@, idx as int);
                } else {
                    let mb = member_index(bv, k@);
                    lemma_member_index_unique(av, k@, mb);
                }
            }
            removed = true;
        } else {
            let ghost kb = kept@;
            kept.push(m);
            proof {
                assert(members_view(kept@) =~= members_view(kb).push((m.0@, jv(m.1))));
                let mb = member_index(bv, k@);
                if mb < idx {
                    lemma_member_index_unique(av, k@, mb);
                } else {
                    lemma_member_index_unique(av, k@, idx + 1);
                }
            }
        }
        idx = idx + 1;
    }
    proof {
        assert(sv.take(n as int) =~= sv);
        lemma_member_index(members_view(sv), k@);
    }
    *ms = kept;
    removed
}

/// `serde_json::Value`, a parsed JSON value.
#[verifier::external_type_specification]
#[verifier::external_body]
pub struct ExJsonValue(serde_json::Value);

/// What `serde_json::from_str::<serde_json::Value>` makes of a text, as a
/// [`JsonV`] (numbers by their text, object members in the order
/// `serde_json` keeps them), or `None` where it refuses the text.
pub uninterp spec fn json_parsed(text: Seq<char>) -> Option<JsonV>;

/// The `Json` of a `serde_json::Value`, one for one: numbers by their text,
/// members in the value's order. Nothing is stated of it on its own: what
/// a parsed text gives is stated by [`json_from_str`].
#[verifier::external_body]
fn json_of_value(v: &serde_json::Value) -> (r: Json) {
    match v {
        serde_json::Value::Null => Json::Null,
        serde_json::Value::Bool(b) => Json::Bool(*b),
        serde_json::Value::Number(n) => Json::Number(n.to_string()),
        serde_json::Value::String(t) => Json::Str(t.clone()),
        serde_json::Value::Array(a) => Json::Array(a.iter().map(json_of_value).collect()),
        serde_json::Value::Object(m) => Json::Object(m.iter().map(|(k, x)| (k.clone(), json_of_value(x))).collect()),
    }
}

/// `serde_json::from_str::<serde_json::Value>`: the parsed value as `Json`
/// ([`json_parsed`]), or the text of `serde_json`'s error, whose words are
/// not stated.
#[verifier::external_body]
fn json_from_str(text: &str) -> (r: Result<Json, String>)
    ensures
        match r {
            Ok(j) => json_parsed(text@) == Some(j@),
            Err(_) => json_parsed(text@) is None,
        },
{
    serde_json::from_str::<serde_json::Value>(text).map(|v| json_of_value(&v)).map_err(|e| e.to_string())
}

/// The empty JSON object.
pub open spec fn empty_object() -> JsonV {
    JsonV::Object(Seq::empty())
}

/// The document of a JSON configuration file, from its text (`None` where
/// the file is missing): an empty object for a missing or empty file, else
/// the parsed text; `None` where the text is not JSON.
pub open spec fn config_document(text: Option<Seq<char>>) -> Option<JsonV> {
    match text {
        None => Some(empty_object()),
        Some(t) => if t.len() == 0 {
            Some(empty_object())
        } else {
            json_parsed(t)
        },
    }
}

/// Reads a JSON configuration file's text (`None` where the file is
/// missing) as a document: see [`config_document`]. Fails with `serde_json`'s
/// message where the text is not JSON.
pub fn read_config(text: Option<&str>) -> (r: Result<Json, Error>)
    ensures
        match config_document(opt_text_view(text)) {
            Some(d) => r is Ok && r->Ok_0@ == d,
            None => r matches Err(Error::Parse(_)),
        },
{
    let t = match text {
        None => {
            return Ok(empty_json_object());
        },
        Some(t) => t,
    };
    if t.is_empty() {
        return Ok(empty_json_object());
    }
    parse_json(t)
}

/// Parses a JSON text: see [`json_parsed`].
pub fn parse_json(text: &str) -> (r: Result<Json, Error>)
    ensures
        match json_parsed(text@) {
            Some(d) => r is Ok && r->Ok_0@ == d,
            None => r matches Err(Error::Parse(_)),
        },
{
    match json_from_str(text) {
        Ok(j) => Ok(j),
        Err(m) => Err(Error::Parse(m)),
    }
}

fn empty_json_object() -> (r: Json)
    ensures
        r@ == empty_object(),
{
    let v: Vec<(String, Json)> = Vec::new();
    proof {
        lemma_object_view(v);
    }
    assert(members_view(v@) =~= Seq::<(Seq<char>, JsonV)>::empty());
    Json::Object(v)
}

/// The view of an optional text.
pub open spec fn opt_text_view(o: Option<&str>) -> Option<Seq<char>> {
    match o {
        None => None,
        Some(s) => Some(s@),
    }
}

} // verus!
