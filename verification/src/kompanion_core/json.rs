//! A JSON document tree, as the catalog's change requests are written.
use vstd::prelude::*;
use vstd::string::*;

verus! {

/// A JSON value. Numbers keep their written form (`0`, `0.0`, `1700000000`);
/// an object is its members in order, a later member with the same key
/// replacing an earlier one.
pub enum Json {
    Null,
    Bool(bool),
    Number(String),
    Str(String),
    Array(Vec<Json>),
    Object(Vec<(String, Json)>),
}

/// A JSON value as plain values.
pub ghost enum JsonModel {
    Null,
    Bool(bool),
    Number(Seq<char>),
    Str(Seq<char>),
    Array(Seq<JsonModel>),
    Object(Seq<(Seq<char>, JsonModel)>),
}

/// The plain value of a JSON value.
pub open spec fn json_model(j: Json) -> JsonModel
    decreases j, 0int,
{
    match j {
        Json::Null => JsonModel::Null,
        Json::Bool(b) => JsonModel::Bool(b),
        Json::Number(n) => JsonModel::Number(n@),
        Json::Str(s) => JsonModel::Str(s@),
        Json::Array(v) => JsonModel::Array(json_models(v@)),
        Json::Object(fs) => JsonModel::Object(member_models(fs@)),
    }
}

/// The plain values of a sequence of JSON values.
pub open spec fn json_models(s: Seq<Json>) -> Seq<JsonModel>
    decreases s, 1int,
{
    if s.len() == 0 {
        Seq::empty()
    } else {
        json_models(s.drop_last()).push(json_model(s.last()))
    }
}

/// The plain values of object members.
pub open spec fn member_models(s: Seq<(String, Json)>) -> Seq<(Seq<char>, JsonModel)>
    decreases s, 1int,
{
    if s.len() == 0 {
        Seq::empty()
    } else {
        member_models(s.drop_last()).push((s.last().0@, json_model(s.last().1)))
    }
}

/// The members of an object as a map: a later member with the same key
/// replaces an earlier one.
pub open spec fn members_map(s: Seq<(Seq<char>, JsonModel)>) -> Map<Seq<char>, JsonModel>
    decreases s.len(),
{
    if s.len() == 0 {
        Map::empty()
    } else {
        members_map(s.drop_last()).insert(s.last().0, s.last().1)
    }
}

/// A member written last sets its key to its value.
pub proof fn lemma_members_map_push(s: Seq<(Seq<char>, JsonModel)>, x: (Seq<char>, JsonModel))
    ensures
        members_map(s.push(x)) == members_map(s).insert(x.0, x.1),
{
    assert(s.push(x).drop_last() =~= s);
}

/// Members written after others override them key by key.
pub proof fn lemma_members_map_append(a: Seq<(Seq<char>, JsonModel)>, b: Seq<(Seq<char>, JsonModel)>)
    ensures
        members_map(a + b) == members_map(a).union_prefer_right(members_map(b)),
    decreases b.len(),
{
    if b.len() == 0 {
        assert(a + b =~= a);
        assert(members_map(a).union_prefer_right(members_map(b)) =~= members_map(a));
    } else {
        assert((a + b).drop_last() =~= a + b.drop_last());
        lemma_members_map_append(a, b.drop_last());
        assert(members_map(a + b) =~= members_map(a).union_prefer_right(members_map(b)));
    }
}

/// A string value.
pub fn json_str(s: &str) -> (r: Json)
    ensures
        json_model(r) == JsonModel::Str(s@),
{
    Json::Str(String::from_str(s))
}

/// Appends a member to an object's members.
pub fn push_member(fs: &mut Vec<(String, Json)>, key: &str, value: Json)
    ensures
        member_models(final(fs)@) == member_models(old(fs)@).push((key@, json_model(value))),
{
    fs.push((String::from_str(key), value));
    assert(fs@.drop_last() =~= old(fs)@);
}

/// Appends a value to an array's items.
pub fn push_item(v: &mut Vec<Json>, x: Json)
    ensures
        json_models(final(v)@) == json_models(old(v)@).push(json_model(x)),
{
    v.push(x);
    assert(v@.drop_last() =~= old(v)@);
}

/// An object of one member.
pub fn single(key: &str, value: Json) -> (r: Json)
    ensures
        json_model(r) == JsonModel::Object(seq![(key@, json_model(value))]),
{
    let mut fs: Vec<(String, Json)> = Vec::new();
    push_member(&mut fs, key, value);
    assert(member_models(fs@) =~= seq![(key@, json_model(value))]);
    Json::Object(fs)
}

/// An array of one item.
pub fn one_item(x: Json) -> (r: Json)
    ensures
        json_model(r) == JsonModel::Array(seq![json_model(x)]),
{
    let mut v: Vec<Json> = Vec::new();
    push_item(&mut v, x);
    assert(json_models(v@) =~= seq![json_model(x)]);
    Json::Array(v)
}

/// The plain members of two member lists one after the other.
pub proof fn lemma_member_models_append(a: Seq<(String, Json)>, b: Seq<(String, Json)>)
    ensures
        member_models(a + b) == member_models(a) + member_models(b),
    decreases b.len(),
{
    if b.len() == 0 {
        assert(a + b =~= a);
        assert(member_models(a) + member_models(b) =~= member_models(a));
    } else {
        assert((a + b).drop_last() =~= a + b.drop_last());
        lemma_member_models_append(a, b.drop_last());
        assert(member_models(a + b) =~= member_models(a) + member_models(b));
    }
}

/// A key is among an object's members exactly when some member has it.
pub proof fn lemma_members_map_key(s: Seq<(Seq<char>, JsonModel)>, k: Seq<char>)
    ensures
        members_map(s).contains_key(k) <==> exists|i: int| 0 <= i < s.len() && #[trigger] s[i].0 == k,
    decreases s.len(),
{
    if s.len() > 0 {
        let t = s.drop_last();
        lemma_members_map_key(t, k);
        if exists|i: int| 0 <= i < t.len() && #[trigger] t[i].0 == k {
            let i = choose|i: int| 0 <= i < t.len() && #[trigger] t[i].0 == k;
            assert(s[i].0 == k);
        }
        if exists|i: int| 0 <= i < s.len() && #[trigger] s[i].0 == k {
            let i = choose|i: int| 0 <= i < s.len() && #[trigger] s[i].0 == k;
            if i < s.len() - 1 {
                assert(t[i].0 == k);
            }
        }
    }
}

/// The plain value of the `i`-th member.
pub proof fn lemma_member_models_index(s: Seq<(String, Json)>, i: int)
    requires
        0 <= i < s.len(),
    ensures
        member_models(s).len() == s.len(),
        member_models(s)[i] == (s[i].0@, json_model(s[i].1)),
    decreases s.len(),
{
    lemma_member_models_len(s);
    let t = s.drop_last();
    assert(member_models(s) == member_models(t).push((s.last().0@, json_model(s.last().1))));
    if i < s.len() - 1 {
        lemma_member_models_index(t, i);
        assert(t[i] == s[i]);
    }
}

/// There is one plain member for each member.
pub proof fn lemma_member_models_len(s: Seq<(String, Json)>)
    ensures
        member_models(s).len() == s.len(),
    decreases s.len(),
{
    if s.len() > 0 {
        lemma_member_models_len(s.drop_last());
    }
}

/// The last member of a key gives the key's value.
pub proof fn lemma_members_map_last(s: Seq<(Seq<char>, JsonModel)>, i: int)
    requires
        0 <= i < s.len(),
        forall|j: int| i < j < s.len() ==> #[trigger] s[j].0 != s[i].0,
    ensures
        members_map(s).contains_key(s[i].0),
        members_map(s)[s[i].0] == s[i].1,
    decreases s.len(),
{
    let t = s.drop_last();
    if i < s.len() - 1 {
        assert(s.last().0 != s[i].0) by {
            assert(s[s.len() - 1].0 != s[i].0);
        }
        assert forall|j: int| i < j < t.len() implies #[trigger] t[j].0 != t[i].0 by {
            assert(t[j] == s[j]);
            assert(s[j].0 != s[i].0);
        }
        lemma_members_map_last(t, i);
    }
}

/// The plain values of the items of an array, one for each.
pub proof fn lemma_json_models_index(s: Seq<Json>, i: int)
    requires
        0 <= i < s.len(),
    ensures
        json_models(s).len() == s.len(),
        json_models(s)[i] == json_model(s[i]),
    decreases s.len(),
{
    lemma_json_models_len(s);
    if i < s.len() - 1 {
        lemma_json_models_index(s.drop_last(), i);
    }
}

/// There is one plain value for each item.
pub proof fn lemma_json_models_len(s: Seq<Json>)
    ensures
        json_models(s).len() == s.len(),
    decreases s.len(),
{
    if s.len() > 0 {
        lemma_json_models_len(s.drop_last());
    }
}

impl Json {
    /// The value of the member `key` of an object (its last member of that
    /// key); `None` when this is not an object or has no such member.
    pub fn member(&self, key: &str) -> (r: Option<&Json>)
        ensures
            match json_model(*self) {
                JsonModel::Object(ms) => if members_map(ms).contains_key(key@) {
                    r matches Some(v) && json_model(*v) == members_map(ms)[key@]
                } else {
                    r is None
                },
                _ => r is None,
            },
    {
        match self {
            Json::Object(fs) => {
                let ghost ms = member_models(fs@);
                proof {
                    lemma_member_models_len(fs@);
                }
                let k = crate::text::chars_of(key);
                let mut i: usize = fs.len();
                while i > 0
                    invariant
                        i <= fs@.len(),
                        ms == member_models(fs@),
                        ms.len() == fs@.len(),
                        json_model(*self) == JsonModel::Object(ms),
                        k@ == key@,
                        forall|j: int| i <= j < fs@.len() ==> #[trigger] ms[j].0 != key@,
                    decreases i,
                {
                    let n = i - 1;
                    proof {
                        lemma_member_models_index(fs@, n as int);
                    }
                    let same = crate::text::chars_equal(
                        crate::text::chars_of(fs[n].0.as_str()).as_slice(),
                        k.as_slice(),
                    );
                    assert(ms[n as int] == (fs@[n as int].0@, json_model(fs@[n as int].1)));
                    if same {
                        proof {
                            assert(ms[n as int].0 == key@);
                            lemma_members_map_last(ms, n as int);
                            assert(json_model(*self) == JsonModel::Object(ms));
                        }
                        return Some(&fs[n].1);
                    }
                    i = n;
                }
                proof {
                    lemma_members_map_key(ms, key@);
                    assert(json_model(*self) == JsonModel::Object(ms));
                }
                None
            },
            _ => None,
        }
    }

    /// The `i`-th item of an array; `None` when this is not an array or it
    /// has no such item.
    pub fn item(&self, i: usize) -> (r: Option<&Json>)
        ensures
            match json_model(*self) {
                JsonModel::Array(items) => if i < items.len() {
                    r matches Some(v) && json_model(*v) == items[i as int]
                } else {
                    r is None
                },
                _ => r is None,
            },
    {
        match self {
            Json::Array(v) => {
                proof {
                    lemma_json_models_len(v@);
                }
                if i < v.len() {
                    proof {
                        lemma_json_models_index(v@, i as int);
                    }
                    Some(&v[i])
                } else {
                    None
                }
            },
            _ => None,
        }
    }

    /// The text of a string value; `None` for any other value.
    pub fn text(&self) -> (r: Option<&str>)
        ensures
            match json_model(*self) {
                JsonModel::Str(t) => r matches Some(s) && s@ == t,
                _ => r is None,
            },
    {
        match self {
            Json::Str(s) => Some(s.as_str()),
            _ => None,
        }
    }
}

} // verus!
