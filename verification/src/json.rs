//! The JSON value model: an executable tree type `Json` with a mathematical
//! view `JsonVal`, plus lookups, structural equality and deep copy.
//!
//! Numbers are modelled as 64-bit integers: the protocol machinery of this
//! library (ids, arguments, sizes) only ever computes with integral values.

use vstd::prelude::*;

verus! {

/// Mathematical model of a JSON value.
pub enum JsonVal {
    Null,
    Bool(bool),
    Int(int),
    Str(Seq<char>),
    Arr(Seq<JsonVal>),
    Obj(Seq<(Seq<char>, JsonVal)>),
}

/// An executable JSON value. Object members keep their textual order, and
/// duplicate keys are kept; lookups return the first occurrence.
#[derive(Debug)]
pub enum Json {
    Null,
    Bool(bool),
    Int(i64),
    Str(String),
    Arr(Vec<Json>),
    Obj(Vec<(String, Json)>),
}

impl Json {
    /// The mathematical value of this JSON tree.
    pub open spec fn view_rec(self) -> JsonVal
        decreases self,
    {
        match self {
            Json::Null => JsonVal::Null,
            Json::Bool(b) => JsonVal::Bool(b),
            Json::Int(i) => JsonVal::Int(i as int),
            Json::Str(s) => JsonVal::Str(s@),
            Json::Arr(items) => JsonVal::Arr(jvals_of(items@)),
            Json::Obj(fields) => JsonVal::Obj(jfields_of(fields@)),
        }
    }
}

/// Views of a sequence of JSON values, elementwise.
pub open spec fn jvals_of(items: Seq<Json>) -> Seq<JsonVal>
    decreases items,
{
    if items.len() == 0 {
        Seq::empty()
    } else {
        seq![items.first().view_rec()] + jvals_of(items.drop_first())
    }
}

/// Views of a sequence of object members, elementwise.
pub open spec fn jfields_of(fields: Seq<(String, Json)>) -> Seq<(Seq<char>, JsonVal)>
    decreases fields,
{
    if fields.len() == 0 {
        Seq::empty()
    } else {
        seq![(fields.first().0@, fields.first().1.view_rec())] + jfields_of(fields.drop_first())
    }
}

impl View for Json {
    type V = JsonVal;

    open spec fn view(&self) -> JsonVal {
        self.view_rec()
    }
}

/// `jvals_of` maps elementwise.
pub proof fn lemma_jvals_of_index(items: Seq<Json>)
    ensures
        jvals_of(items).len() == items.len(),
        forall|i: int|
            0 <= i < items.len() ==> jvals_of(items)[i] == (#[trigger] items[i]).view_rec(),
    decreases items.len(),
{
    if items.len() > 0 {
        lemma_jvals_of_index(items.drop_first());
        assert forall|i: int|
            0 <= i < items.len() implies jvals_of(items)[i] == (#[trigger] items[i]).view_rec() by {
            if i == 0 {
                assert(jvals_of(items)[0] == items.first().view_rec());
            } else {
                assert(jvals_of(items)[i] == jvals_of(items.drop_first())[i - 1]);
                assert(items.drop_first()[i - 1] == items[i]);
            }
        }
    }
}

/// `jfields_of` maps elementwise.
pub proof fn lemma_jfields_of_index(fields: Seq<(String, Json)>)
    ensures
        jfields_of(fields).len() == fields.len(),
        forall|i: int|
            0 <= i < fields.len() ==> jfields_of(fields)[i] == ((#[trigger] fields[i]).0@,
            fields[i].1.view_rec()),
    decreases fields.len(),
{
    if fields.len() > 0 {
        lemma_jfields_of_index(fields.drop_first());
        assert forall|i: int|
            0 <= i < fields.len() implies jfields_of(fields)[i] == ((#[trigger] fields[i]).0@,
        fields[i].1.view_rec()) by {
            if i == 0 {
                assert(jfields_of(fields)[0] == (fields.first().0@, fields.first().1.view_rec()));
            } else {
                assert(jfields_of(fields)[i] == jfields_of(fields.drop_first())[i - 1]);
                assert(fields.drop_first()[i - 1] == fields[i]);
            }
        }
    }
}

/// Whether every number in a JSON tree fits a signed 64-bit integer; every
/// value an executable tree denotes does.
pub open spec fn jv_in_range(v: JsonVal) -> bool
    decreases v,
{
    match v {
        JsonVal::Int(i) => i64::MIN <= i <= i64::MAX,
        JsonVal::Arr(items) => forall|k: int|
            0 <= k < items.len() ==> jv_in_range(#[trigger] items[k]),
        JsonVal::Obj(fields) => forall|k: int|
            0 <= k < fields.len() ==> jv_in_range((#[trigger] fields[k]).1),
        _ => true,
    }
}

/// The value an executable tree denotes has every number in range.
pub proof fn lemma_view_in_range(j: Json)
    ensures
        jv_in_range(j.view_rec()),
    decreases j,
{
    match j {
        Json::Arr(items) => {
            lemma_jvals_of_index(items@);
            assert forall|k: int|
                0 <= k < jvals_of(items@).len() implies jv_in_range(
                #[trigger] jvals_of(items@)[k],
            ) by {
                lemma_view_in_range(items@[k]);
            }
        },
        Json::Obj(fields) => {
            lemma_jfields_of_index(fields@);
            assert forall|k: int|
                0 <= k < jfields_of(fields@).len() implies jv_in_range(
                (#[trigger] jfields_of(fields@)[k]).1,
            ) by {
                lemma_view_in_range(fields@[k].1);
            }
        },
        _ => {},
    }
}

/// Viewing a pushed element appends its view.
pub proof fn lemma_jvals_of_push(items: Seq<Json>, x: Json)
    ensures
        jvals_of(items.push(x)) == jvals_of(items) + seq![x.view_rec()],
{
    lemma_jvals_of_index(items.push(x));
    lemma_jvals_of_index(items);
    assert forall|i: int|
        0 <= i < items.len() + 1 implies jvals_of(items.push(x))[i] == (jvals_of(items)
        + seq![x.view_rec()])[i] by {
        if i < items.len() {
            assert(items.push(x)[i] == items[i]);
        } else {
            assert(items.push(x)[i] == x);
        }
    }
    assert(jvals_of(items.push(x)) =~= jvals_of(items) + seq![x.view_rec()]);
}

/// Viewing a pushed member appends its view.
pub proof fn lemma_jfields_of_push(fields: Seq<(String, Json)>, k: String, x: Json)
    ensures
        jfields_of(fields.push((k, x))) == jfields_of(fields) + seq![(k@, x.view_rec())],
{
    lemma_jfields_of_index(fields.push((k, x)));
    lemma_jfields_of_index(fields);
    assert forall|i: int|
        0 <= i < fields.len() + 1 implies jfields_of(fields.push((k, x)))[i] == (jfields_of(fields)
        + seq![(k@, x.view_rec())])[i] by {
        if i < fields.len() {
            assert(fields.push((k, x))[i] == fields[i]);
        } else {
            assert(fields.push((k, x))[i] == (k, x));
        }
    }
    assert(jfields_of(fields.push((k, x))) =~= jfields_of(fields) + seq![(k@, x.view_rec())]);
}

/// First value bound to `key` in an object member sequence.
pub open spec fn obj_lookup(fields: Seq<(Seq<char>, JsonVal)>, key: Seq<char>) -> Option<JsonVal>
    decreases fields.len(),
{
    if fields.len() == 0 {
        None
    } else if fields[0].0 == key {
        Some(fields[0].1)
    } else {
        obj_lookup(fields.drop_first(), key)
    }
}

/// Lookup of `key` in a JSON value: `None` unless the value is an object
/// with that member.
pub open spec fn jv_get(v: JsonVal, key: Seq<char>) -> Option<JsonVal> {
    match v {
        JsonVal::Obj(fields) => obj_lookup(fields, key),
        _ => None,
    }
}

/// `obj_lookup` finds the first member whose key matches.
pub proof fn lemma_obj_lookup_index(fields: Seq<(Seq<char>, JsonVal)>, key: Seq<char>, i: int)
    requires
        0 <= i < fields.len(),
        fields[i].0 == key,
        forall|j: int| 0 <= j < i ==> (#[trigger] fields[j]).0 != key,
    ensures
        obj_lookup(fields, key) == Some(fields[i].1),
    decreases fields.len(),
{
    if i > 0 {
        lemma_obj_lookup_index(fields.drop_first(), key, i - 1);
    }
}

/// `obj_lookup` finds nothing when no member's key matches.
pub proof fn lemma_obj_lookup_none(fields: Seq<(Seq<char>, JsonVal)>, key: Seq<char>)
    requires
        forall|j: int| 0 <= j < fields.len() ==> (#[trigger] fields[j]).0 != key,
    ensures
        obj_lookup(fields, key) is None,
    decreases fields.len(),
{
    if fields.len() > 0 {
        lemma_obj_lookup_none(fields.drop_first(), key);
    }
}

impl Json {
    /// Whether this value is an object.
    pub fn is_object(&self) -> (r: bool)
        ensures
            r == (self@ is Obj),
    {
        match self {
            Json::Obj(_) => true,
            _ => false,
        }
    }

    /// Whether this value is `null`.
    pub fn is_null(&self) -> (r: bool)
        ensures
            r == (self@ is Null),
    {
        match self {
            Json::Null => true,
            _ => false,
        }
    }

    /// Whether this value is a string.
    pub fn is_string(&self) -> (r: bool)
        ensures
            r == (self@ is Str),
    {
        match self {
            Json::Str(_) => true,
            _ => false,
        }
    }

    /// Whether this value is a number.
    pub fn is_number(&self) -> (r: bool)
        ensures
            r == (self@ is Int),
    {
        match self {
            Json::Int(_) => true,
            _ => false,
        }
    }

    /// Whether this value is an array.
    pub fn is_array(&self) -> (r: bool)
        ensures
            r == (self@ is Arr),
    {
        match self {
            Json::Arr(_) => true,
            _ => false,
        }
    }

    /// The string content, when this value is a string.
    pub fn as_str(&self) -> (r: Option<&String>)
        ensures
            match r {
                Some(s) => self@ == JsonVal::Str(s@),
                None => !(self@ is Str),
            },
    {
        match self {
            Json::Str(s) => Some(s),
            _ => None,
        }
    }

    /// The integer content, when this value is a number.
    pub fn as_i64(&self) -> (r: Option<i64>)
        ensures
            match r {
                Some(n) => self@ == JsonVal::Int(n as int),
                None => !(self@ is Int),
            },
    {
        match self {
            Json::Int(n) => Some(*n),
            _ => None,
        }
    }

    /// First member bound to `key`, when this value is an object holding one.
    #[verifier::loop_isolation(false)]
    pub fn get<'a>(&'a self, key: &str) -> (r: Option<&'a Json>)
        ensures
            match r {
                Some(j) => jv_get(self@, key@) == Some(j@),
                None => jv_get(self@, key@) is None,
            },
    {
        match self {
            Json::Obj(fields) => {
                proof {
                    lemma_jfields_of_index(fields@);
                }
                let mut i: usize = 0;
                while i < fields.len()
                    invariant
                        i <= fields@.len(),
                        forall|j: int| 0 <= j < i ==> (#[trigger] jfields_of(fields@)[j]).0 != key@,
                    decreases fields@.len() - i,
                {
                    if crate::strings::str_eq(fields[i].0.as_str(), key) {
                        proof {
                            lemma_obj_lookup_index(jfields_of(fields@), key@, i as int);
                        }
                        return Some(&fields[i].1);
                    }
                    i = i + 1;
                }
                proof {
                    lemma_obj_lookup_none(jfields_of(fields@), key@);
                }
                None
            },
            _ => None,
        }
    }
}

/// Structural equality of two JSON trees, decided at the level of views.
#[verifier::loop_isolation(false)]
pub fn json_eq(a: &Json, b: &Json) -> (r: bool)
    ensures
        r == (a@ == b@),
    decreases a,
{
    match (a, b) {
        (Json::Null, Json::Null) => true,
        (Json::Bool(x), Json::Bool(y)) => x == y,
        (Json::Int(x), Json::Int(y)) => x == y,
        (Json::Str(x), Json::Str(y)) => crate::strings::str_eq(x.as_str(), y.as_str()),
        (Json::Arr(xs), Json::Arr(ys)) => {
            proof {
                lemma_jvals_of_index(xs@);
                lemma_jvals_of_index(ys@);
            }
            if xs.len() != ys.len() {
                return false;
            }
            let mut i: usize = 0;
            while i < xs.len()
                invariant
                    i <= xs@.len(),
                    forall|j: int|
                        0 <= j < i ==> (#[trigger] jvals_of(xs@)[j]) == jvals_of(ys@)[j],
                decreases xs@.len() - i,
            {
                if !json_eq(&xs[i], &ys[i]) {
                    proof {
                        assert(jvals_of(xs@)[i as int] != jvals_of(ys@)[i as int]);
                        assert(jvals_of(xs@) != jvals_of(ys@));
                    }
                    return false;
                }
                i = i + 1;
            }
            proof {
                assert(jvals_of(xs@) =~= jvals_of(ys@));
            }
            true
        },
        (Json::Obj(xs), Json::Obj(ys)) => {
            proof {
                lemma_jfields_of_index(xs@);
                lemma_jfields_of_index(ys@);
            }
            if xs.len() != ys.len() {
                return false;
            }
            let mut i: usize = 0;
            while i < xs.len()
                invariant
                    i <= xs@.len(),
                    forall|j: int|
                        0 <= j < i ==> (#[trigger] jfields_of(xs@)[j]) == jfields_of(ys@)[j],
                decreases xs@.len() - i,
            {
                let keys_equal = crate::strings::str_eq(xs[i].0.as_str(), ys[i].0.as_str());
                if !keys_equal || !json_eq(&xs[i].1, &ys[i].1) {
                    proof {
                        assert(jfields_of(xs@)[i as int] != jfields_of(ys@)[i as int]);
                        assert(jfields_of(xs@) != jfields_of(ys@));
                    }
                    return false;
                }
                i = i + 1;
            }
            proof {
                assert(jfields_of(xs@) =~= jfields_of(ys@));
            }
            true
        },
        _ => {
            proof {
                assert(a@ != b@);
            }
            false
        },
    }
}

/// Deep copy of a JSON tree.
#[verifier::loop_isolation(false)]
pub fn clone_json(j: &Json) -> (r: Json)
    ensures
        r@ == j@,
    decreases j,
{
    match j {
        Json::Null => Json::Null,
        Json::Bool(b) => Json::Bool(*b),
        Json::Int(n) => Json::Int(*n),
        Json::Str(s) => Json::Str(s.clone()),
        Json::Arr(items) => {
            proof {
                lemma_jvals_of_index(items@);
            }
            let mut out: Vec<Json> = Vec::new();
            let mut i: usize = 0;
            while i < items.len()
                invariant
                    i <= items@.len(),
                    out@.len() == i,
                    forall|k: int|
                        0 <= k < i ==> (#[trigger] out[k].view_rec()) == items[k].view_rec(),
                decreases items@.len() - i,
            {
                let c = clone_json(&items[i]);
                out.push(c);
                i = i + 1;
            }
            proof {
                lemma_jvals_of_index(out@);
                assert forall|k: int|
                    0 <= k < out@.len() implies jvals_of(out@)[k] == jvals_of(items@)[k] by {
                    assert(out[k].view_rec() == items[k].view_rec());
                }
                assert(jvals_of(out@) =~= jvals_of(items@));
            }
            Json::Arr(out)
        },
        Json::Obj(fields) => {
            proof {
                lemma_jfields_of_index(fields@);
            }
            let mut out: Vec<(String, Json)> = Vec::new();
            let mut i: usize = 0;
            while i < fields.len()
                invariant
                    i <= fields@.len(),
                    out@.len() == i,
                    forall|k: int|
                        0 <= k < i ==> ((#[trigger] out[k].0@), out[k].1.view_rec()) == (
                        fields[k].0@,
                        fields[k].1.view_rec(),
                        ),
                decreases fields@.len() - i,
            {
                let key = fields[i].0.clone();
                let val = clone_json(&fields[i].1);
                out.push((key, val));
                i = i + 1;
            }
            proof {
                lemma_jfields_of_index(out@);
                assert forall|k: int|
                    0 <= k < out@.len() implies jfields_of(out@)[k] == jfields_of(fields@)[k] by {
                    assert((out[k].0@, out[k].1.view_rec()) == (
                        fields[k].0@,
                        fields[k].1.view_rec(),
                    ));
                }
                assert(jfields_of(out@) =~= jfields_of(fields@));
            }
            Json::Obj(out)
        },
    }
}

impl Clone for Json {
    /// Deep copy preserving the mathematical value.
    fn clone(&self) -> (r: Self)
        ensures
            r@ == self@,
    {
        clone_json(self)
    }
}

} // verus!
