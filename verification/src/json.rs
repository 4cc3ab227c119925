//! JSON values as the library builds them, and their mathematical model.
use crate::text::str_equal;
use vstd::prelude::*;

verus! {

/// A JSON value. Object members keep the order in which they were set.
pub enum JsonValue {
    Null,
    Bool(bool),
    Int(i64),
    /// A number that is not an `i64`, by its text.
    Num(String),
    Str(String),
    Array(Vec<JsonValue>),
    Object(Vec<(String, JsonValue)>),
}

/// The model of a JSON value.
pub enum Json {
    Null,
    Bool(bool),
    Int(int),
    Num(Seq<char>),
    Str(Seq<char>),
    Array(Seq<Json>),
    Object(Seq<(Seq<char>, Json)>),
}

impl JsonValue {
    /// The model of this value.
    pub open spec fn model(self) -> Json
        decreases self,
    {
        match self {
            JsonValue::Null => Json::Null,
            JsonValue::Bool(b) => Json::Bool(b),
            JsonValue::Int(n) => Json::Int(n as int),
            JsonValue::Num(t) => Json::Num(t@),
            JsonValue::Str(s) => Json::Str(s@),
            JsonValue::Array(v) => Json::Array(JsonValue::models(v@)),
            JsonValue::Object(m) => Json::Object(JsonValue::member_models(m@)),
        }
    }

    /// The models of a sequence of values.
    pub open spec fn models(s: Seq<JsonValue>) -> Seq<Json>
        decreases s,
    {
        if s.len() == 0 {
            Seq::empty()
        } else {
            JsonValue::models(s.drop_last()).push(s.last().model())
        }
    }

    /// The models of a sequence of object members.
    pub open spec fn member_models(s: Seq<(String, JsonValue)>) -> Seq<(Seq<char>, Json)>
        decreases s,
    {
        if s.len() == 0 {
            Seq::empty()
        } else {
            JsonValue::member_models(s.drop_last()).push((s.last().0@, s.last().1.model()))
        }
    }
}

/// The model of a sequence of values has one model per value, in order.
pub proof fn lemma_models_index(s: Seq<JsonValue>)
    ensures
        JsonValue::models(s).len() == s.len(),
        forall|i: int| 0 <= i < s.len() ==> #[trigger] JsonValue::models(s)[i] == s[i].model(),
    decreases s.len(),
{
    if s.len() > 0 {
        lemma_models_index(s.drop_last());
    }
}

/// The model of a sequence of members has one model per member, in order.
pub proof fn lemma_member_models_index(s: Seq<(String, JsonValue)>)
    ensures
        JsonValue::member_models(s).len() == s.len(),
        forall|i: int| 0 <= i < s.len() ==> #[trigger] JsonValue::member_models(s)[i] == (s[i].0@, s[i].1.model()),
    decreases s.len(),
{
    if s.len() > 0 {
        lemma_member_models_index(s.drop_last());
    }
}

/// Appending a value appends its model.
pub proof fn lemma_models_push(s: Seq<JsonValue>, x: JsonValue)
    ensures
        JsonValue::models(s.push(x)) == JsonValue::models(s).push(x.model()),
{
    assert(s.push(x).drop_last() =~= s);
}

/// A one-member object.
pub open spec fn object1(k0: Seq<char>, v0: Json) -> Json {
    Json::Object(seq![(k0, v0)])
}

/// A two-member object.
pub open spec fn object2(k0: Seq<char>, v0: Json, k1: Seq<char>, v1: Json) -> Json {
    Json::Object(seq![(k0, v0), (k1, v1)])
}

/// A three-member object.
pub open spec fn object3(k0: Seq<char>, v0: Json, k1: Seq<char>, v1: Json, k2: Seq<char>, v2: Json) -> Json {
    Json::Object(seq![(k0, v0), (k1, v1), (k2, v2)])
}

/// The index of the first member named `key`, or -1.
pub open spec fn member_index(ms: Seq<(Seq<char>, Json)>, key: Seq<char>) -> int
    decreases ms.len(),
{
    if ms.len() == 0 {
        -1
    } else if ms[0].0 == key {
        0
    } else {
        let i = member_index(ms.drop_first(), key);
        if i < 0 { -1 } else { i + 1 }
    }
}

/// `v` with its member `key` set to `val`: an object has the first member of that name
/// replaced, or a new member appended; `null` becomes a one-member object; any other value
/// is left as it is.
pub open spec fn json_set(v: Json, key: Seq<char>, val: Json) -> Json {
    match v {
        Json::Object(ms) => {
            let i = member_index(ms, key);
            if i < 0 {
                Json::Object(ms.push((key, val)))
            } else {
                Json::Object(ms.update(i, (key, val)))
            }
        },
        Json::Null => Json::Object(seq![(key, val)]),
        _ => v,
    }
}

proof fn lemma_member_index_bounds(ms: Seq<(Seq<char>, Json)>, key: Seq<char>)
    ensures
        -1 <= member_index(ms, key) < ms.len(),
        member_index(ms, key) >= 0 ==> ms[member_index(ms, key)].0 == key,
        forall|j: int| 0 <= j < ms.len() && (member_index(ms, key) < 0 || j < member_index(ms, key))
            ==> ms[j].0 != key,
    decreases ms.len(),
{
    if ms.len() > 0 && ms[0].0 != key {
        lemma_member_index_bounds(ms.drop_first(), key);
        assert forall|j: int| 0 <= j < ms.len() && (member_index(ms, key) < 0 || j < member_index(ms, key))
            implies ms[j].0 != key by {
            if j > 0 {
                assert(ms[j] == ms.drop_first()[j - 1]);
            }
        }
    }
}

/// The index found for `key` is that of the first member of that name.
pub proof fn lemma_member_index_first(ms: Seq<(Seq<char>, Json)>, key: Seq<char>, i: int)
    requires
        0 <= i < ms.len(),
        ms[i].0 == key,
        forall|j: int| 0 <= j < i ==> ms[j].0 != key,
    ensures
        member_index(ms, key) == i,
    decreases i,
{
    if i > 0 {
        assert forall|j: int| 0 <= j < i - 1 implies ms.drop_first()[j].0 != key by {
            assert(ms.drop_first()[j] == ms[j + 1]);
        }
        lemma_member_index_first(ms.drop_first(), key, i - 1);
    }
}

proof fn lemma_member_index_none(ms: Seq<(Seq<char>, Json)>, key: Seq<char>)
    requires
        forall|j: int| 0 <= j < ms.len() ==> ms[j].0 != key,
    ensures
        member_index(ms, key) == -1,
    decreases ms.len(),
{
    if ms.len() > 0 {
        assert forall|j: int| 0 <= j < ms.len() - 1 implies ms.drop_first()[j].0 != key by {
            assert(ms.drop_first()[j] == ms[j + 1]);
        }
        lemma_member_index_none(ms.drop_first(), key);
    }
}

impl JsonValue {
    /// A string value.
    pub fn string(s: &str) -> (r: JsonValue)
        ensures
            r.model() == Json::Str(s@),
    {
        JsonValue::Str(s.to_owned())
    }

    /// A one-member object.
    pub fn object1(k0: &str, v0: JsonValue) -> (r: JsonValue)
        ensures
            r.model() == object1(k0@, v0.model()),
    {
        let ms = vec![(k0.to_owned(), v0)];
        proof {
            lemma_member_models_index(ms@);
            assert(JsonValue::member_models(ms@) =~= seq![(k0@, v0.model())]);
        }
        JsonValue::Object(ms)
    }

    /// A two-member object.
    pub fn object2(k0: &str, v0: JsonValue, k1: &str, v1: JsonValue) -> (r: JsonValue)
        ensures
            r.model() == object2(k0@, v0.model(), k1@, v1.model()),
    {
        let ms = vec![(k0.to_owned(), v0), (k1.to_owned(), v1)];
        proof {
            lemma_member_models_index(ms@);
            assert(JsonValue::member_models(ms@) =~= seq![(k0@, v0.model()), (k1@, v1.model())]);
        }
        JsonValue::Object(ms)
    }

    /// A three-member object.
    pub fn object3(k0: &str, v0: JsonValue, k1: &str, v1: JsonValue, k2: &str, v2: JsonValue) -> (r: JsonValue)
        ensures
            r.model() == object3(k0@, v0.model(), k1@, v1.model(), k2@, v2.model()),
    {
        let ms = vec![(k0.to_owned(), v0), (k1.to_owned(), v1), (k2.to_owned(), v2)];
        proof {
            lemma_member_models_index(ms@);
            assert(JsonValue::member_models(ms@) =~= seq![(k0@, v0.model()), (k1@, v1.model()), (k2@, v2.model())]);
        }
        JsonValue::Object(ms)
    }

    /// A deep copy of this value.
    pub fn deep_clone(&self) -> (r: JsonValue)
        ensures
            r.model() == self.model(),
        decreases self,
    {
        match self {
            JsonValue::Null => JsonValue::Null,
            JsonValue::Bool(b) => JsonValue::Bool(*b),
            JsonValue::Int(n) => JsonValue::Int(*n),
            JsonValue::Num(t) => JsonValue::Num(t.clone()),
            JsonValue::Str(s) => JsonValue::Str(s.clone()),
            JsonValue::Array(xs) => JsonValue::Array(clone_values(xs)),
            JsonValue::Object(ms) => JsonValue::Object(clone_members(ms)),
        }
    }
}

/// Deep copies of a sequence of values.
pub fn clone_values(xs: &Vec<JsonValue>) -> (r: Vec<JsonValue>)
    ensures
        JsonValue::models(r@) == JsonValue::models(xs@),
    decreases xs,
{
    let mut out: Vec<JsonValue> = Vec::new();
    let mut i: usize = 0;
    while i < xs.len()
        invariant
            i <= xs.len(),
            out@.len() == i,
            forall|j: int| 0 <= j < i ==> (#[trigger] out@[j]).model() == xs@[j].model(),
        decreases xs.len() - i,
    {
        assert(decreases_to!(xs => xs@[i as int]));
        let c = xs[i].deep_clone();
        out.push(c);
        i = i + 1;
    }
    proof {
        lemma_models_index(out@);
        lemma_models_index(xs@);
        assert(JsonValue::models(out@) =~= JsonValue::models(xs@));
    }
    out
}

/// Deep copies of a sequence of object members.
pub fn clone_members(ms: &Vec<(String, JsonValue)>) -> (r: Vec<(String, JsonValue)>)
    ensures
        JsonValue::member_models(r@) == JsonValue::member_models(ms@),
    decreases ms,
{
    let mut out: Vec<(String, JsonValue)> = Vec::new();
    let mut i: usize = 0;
    while i < ms.len()
        invariant
            i <= ms.len(),
            out@.len() == i,
            forall|j: int| 0 <= j < i ==> (#[trigger] out@[j]).0@ == ms@[j].0@
                && out@[j].1.model() == ms@[j].1.model(),
        decreases ms.len() - i,
    {
        proof {
            let m = ms@[i as int];
            assert(decreases_to!(ms => ms@));
            assert(decreases_to!(ms@ => m));
            assert(decreases_to!(m => m.1));
        }
        let c = ms[i].1.deep_clone();
        out.push((ms[i].0.clone(), c));
        i = i + 1;
    }
    proof {
        lemma_member_models_index(out@);
        lemma_member_models_index(ms@);
        assert(JsonValue::member_models(out@) =~= JsonValue::member_models(ms@));
    }
    out
}

/// `v` with its member `key` set to `val` (see `json_set`).
pub fn set_member(v: JsonValue, key: &str, val: JsonValue) -> (r: JsonValue)
    ensures
        r.model() == json_set(v.model(), key@, val.model()),
{
    match v {
        JsonValue::Object(ms) => {
            let ghost old_models = JsonValue::member_models(ms@);
            proof {
                lemma_member_models_index(ms@);
            }
            let k = key.to_owned();
            let mut i: usize = 0;
            while i < ms.len()
                invariant
                    i <= ms.len(),
                    k@ == key@,
                    old_models == JsonValue::member_models(ms@),
                    old_models.len() == ms@.len(),
                    forall|j: int| 0 <= j < i ==> old_models[j].0 != key@,
                    forall|j: int| 0 <= j < ms@.len() ==> #[trigger] old_models[j] == (ms@[j].0@, ms@[j].1.model()),
                ensures
                    i <= ms.len(),
                    forall|j: int| 0 <= j < i ==> old_models[j].0 != key@,
                    i < ms.len() ==> old_models[i as int].0 == key@,
                decreases ms.len() - i,
            {
                if ms[i].0 == k {
                    break;
                }
                i = i + 1;
            }
            let mut ms = ms;
            if i < ms.len() {
                proof {
                    lemma_member_index_first(old_models, key@, i as int);
                }
                let ghost before = ms@;
                ms.set(i, (k, val));
                proof {
                    lemma_member_models_index(ms@);
                    assert(JsonValue::member_models(ms@) =~= old_models.update(i as int, (key@, val.model())));
                }
                JsonValue::Object(ms)
            } else {
                proof {
                    lemma_member_index_none(old_models, key@);
                }
                ms.push((k, val));
                proof {
                    lemma_member_models_index(ms@);
                    assert(JsonValue::member_models(ms@) =~= old_models.push((key@, val.model())));
                }
                JsonValue::Object(ms)
            }
        },
        JsonValue::Null => JsonValue::object1(key, val),
        other => other,
    }
}

/// The value of the first member named `key` of an object; nothing for a value that is
/// not an object or has no such member.
pub open spec fn member_value(v: Json, key: Seq<char>) -> Option<Json> {
    match v {
        Json::Object(ms) => {
            let i = member_index(ms, key);
            if i < 0 { None } else { Some(ms[i].1) }
        },
        _ => None,
    }
}

/// The value found by following the member names `keys` from `v`, if each step finds one.
pub open spec fn json_find(v: Json, keys: Seq<Seq<char>>) -> Option<Json>
    decreases keys.len(),
{
    if keys.len() == 0 {
        Some(v)
    } else {
        match member_value(v, keys[0]) {
            Some(x) => json_find(x, keys.drop_first()),
            None => None,
        }
    }
}

/// The value at the member path `keys` of `v`, `null` where a step finds nothing.
pub open spec fn json_at(v: Json, keys: Seq<Seq<char>>) -> Json {
    match json_find(v, keys) {
        Some(x) => x,
        None => Json::Null,
    }
}

/// The text of a string value.
pub open spec fn json_as_str(v: Json) -> Option<Seq<char>> {
    match v {
        Json::Str(s) => Some(s),
        _ => None,
    }
}

/// The integer of a value that holds an `i64`.
pub open spec fn json_as_i64(v: Json) -> Option<int> {
    match v {
        Json::Int(n) => Some(n),
        _ => None,
    }
}

/// The value of a member that comes before any other member of its name.
pub proof fn lemma_member_value_first(ms: Seq<(Seq<char>, Json)>, key: Seq<char>, i: int)
    requires
        0 <= i < ms.len(),
        ms[i].0 == key,
        forall|j: int| 0 <= j < i ==> ms[j].0 != key,
    ensures
        member_value(Json::Object(ms), key) == Some(ms[i].1),
{
    lemma_member_index_first(ms, key, i);
}

/// Following a path of one or more member names takes the first member, then the rest.
pub proof fn lemma_json_at_step(v: Json, keys: Seq<Seq<char>>)
    requires
        keys.len() > 0,
    ensures
        json_at(v, keys) == match member_value(v, keys[0]) {
            Some(x) => json_at(x, keys.drop_first()),
            None => Json::Null,
        },
{
}

/// The views of a slice of member names.
pub open spec fn keys_view(keys: Seq<&str>) -> Seq<Seq<char>> {
    keys.map_values(|k: &str| k@)
}

/// The value of the first member named `key` of an object (see `member_value`).
pub fn member<'a>(v: &'a JsonValue, key: &str) -> (r: Option<&'a JsonValue>)
    ensures
        match r {
            Some(x) => member_value(v.model(), key@) == Some(x.model()),
            None => member_value(v.model(), key@) is None,
        },
{
    match v {
        JsonValue::Object(ms) => {
            let ghost models = JsonValue::member_models(ms@);
            proof {
                lemma_member_models_index(ms@);
            }
            let mut i: usize = 0;
            assert(v.model() == Json::Object(models));
            while i < ms.len()
                invariant
                    i <= ms.len(),
                    v.model() == Json::Object(models),
                    models == JsonValue::member_models(ms@),
                    models.len() == ms@.len(),
                    forall|j: int| 0 <= j < i ==> models[j].0 != key@,
                    forall|j: int| 0 <= j < ms@.len() ==> #[trigger] models[j] == (ms@[j].0@, ms@[j].1.model()),
                decreases ms.len() - i,
            {
                if str_equal(ms[i].0.as_str(), key) {
                    proof {
                        lemma_member_index_first(models, key@, i as int);
                        assert(models[i as int] == (ms@[i as int].0@, ms@[i as int].1.model()));
                    }
                    return Some(&ms[i].1);
                }
                i = i + 1;
            }
            proof {
                lemma_member_index_none(models, key@);
            }
            None
        },
        _ => None,
    }
}

/// The value at a member path (see `json_find`).
pub fn find_at<'a>(v: &'a JsonValue, keys: &[&str]) -> (r: Option<&'a JsonValue>)
    ensures
        match r {
            Some(x) => json_find(v.model(), keys_view(keys@)) == Some(x.model()),
            None => json_find(v.model(), keys_view(keys@)) is None,
        },
{
    let ghost ks = keys_view(keys@);
    let mut cur: &JsonValue = v;
    let mut i: usize = 0;
    assert(ks.skip(0) =~= ks);
    while i < keys.len()
        invariant
            i <= keys.len(),
            ks == keys_view(keys@),
            ks.len() == keys@.len(),
            json_find(v.model(), ks) == json_find(cur.model(), ks.skip(i as int)),
        decreases keys.len() - i,
    {
        assert(ks.skip(i as int)[0] == keys@[i as int]@);
        assert(ks.skip(i as int).drop_first() =~= ks.skip(i + 1));
        match member(cur, keys[i]) {
            Some(x) => {
                cur = x;
            },
            None => {
                return None;
            },
        }
        i = i + 1;
    }
    assert(ks.skip(i as int) =~= Seq::<Seq<char>>::empty());
    Some(cur)
}

/// The text at a member path, when a string is there.
pub fn str_at(v: &JsonValue, keys: &[&str]) -> (r: Option<String>)
    ensures
        match r {
            Some(s) => json_as_str(json_at(v.model(), keys_view(keys@))) == Some(s@),
            None => json_as_str(json_at(v.model(), keys_view(keys@))) is None,
        },
{
    match find_at(v, keys) {
        Some(JsonValue::Str(s)) => Some(s.clone()),
        _ => None,
    }
}

/// The integer at a member path, when an `i64` is there.
pub fn i64_at(v: &JsonValue, keys: &[&str]) -> (r: Option<i64>)
    ensures
        match r {
            Some(n) => json_as_i64(json_at(v.model(), keys_view(keys@))) == Some(n as int),
            None => json_as_i64(json_at(v.model(), keys_view(keys@))) is None,
        },
{
    match find_at(v, keys) {
        Some(JsonValue::Int(n)) => Some(*n),
        _ => None,
    }
}

/// A copy of the value at a member path, `null` where there is none.
pub fn value_at(v: &JsonValue, keys: &[&str]) -> (r: JsonValue)
    ensures
        r.model() == json_at(v.model(), keys_view(keys@)),
{
    match find_at(v, keys) {
        Some(x) => x.deep_clone(),
        None => JsonValue::Null,
    }
}

/// Appends a member to an object's members.
pub fn push_member(ms: &mut Vec<(String, JsonValue)>, key: &str, v: JsonValue)
    ensures
        JsonValue::member_models(final(ms)@) == JsonValue::member_models(old(ms)@).push((key@, v.model())),
{
    let ghost before = ms@;
    ms.push((key.to_owned(), v));
    assert(ms@.drop_last() =~= before);
}

} // verus!
