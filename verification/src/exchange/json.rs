//! JSON as plain values. Reading and writing the text is left to `serde_json`.

use serde_json::Value;
use vstd::prelude::*;

use crate::text;

verus! {

/// A JSON number: its text, and its value where it is such an integer.
#[derive(Debug, Clone)]
pub struct JsonNumber {
    pub text: String,
    pub signed: Option<i64>,
    pub unsigned: Option<u64>,
}

#[derive(Debug)]
pub enum Json {
    Null,
    Bool(bool),
    Number(JsonNumber),
    Text(String),
    List(Vec<Json>),
    /// Of two members with one name, the later one counts.
    Object(Vec<(String, Json)>),
}

/// A JSON value as a tree of plain values.
pub ghost enum JsonView {
    Null,
    Bool(bool),
    Number(Seq<char>, Option<i64>, Option<u64>),
    Text(Seq<char>),
    List(Seq<JsonView>),
    Object(Map<Seq<char>, JsonView>),
}

/// The tree of a value.
pub open spec fn tree(j: Json) -> JsonView
    decreases j,
{
    match j {
        Json::Null => JsonView::Null,
        Json::Bool(b) => JsonView::Bool(b),
        Json::Number(n) => JsonView::Number(n.text@, n.signed, n.unsigned),
        Json::Text(s) => JsonView::Text(s@),
        Json::List(v) => JsonView::List(items(v@)),
        Json::Object(v) => JsonView::Object(members(v@)),
    }
}

/// The trees of a list.
pub open spec fn items(s: Seq<Json>) -> Seq<JsonView>
    decreases s,
{
    if s.len() == 0 {
        seq![]
    } else {
        items(s.drop_last()).push(tree(s.last()))
    }
}

/// The trees of an object's members, by name.
pub open spec fn members(s: Seq<(String, Json)>) -> Map<Seq<char>, JsonView>
    decreases s,
{
    if s.len() == 0 {
        Map::empty()
    } else {
        members(s.drop_last()).insert(s.last().0@, tree(s.last().1))
    }
}

impl View for Json {
    type V = JsonView;

    open spec fn view(&self) -> JsonView {
        tree(*self)
    }
}


/// The tree of an integer.
pub open spec fn int_tree(n: i64) -> JsonView {
    JsonView::Number(
        text::signed_decimal(n as int),
        Some(n),
        if n >= 0 {
            Some(n as u64)
        } else {
            None
        },
    )
}

/// Lists and objects nested in one another that `serde_json` reads.
pub const MAX_DEPTH: usize = 127;

/// All numbers of the tree are integers, and at most `depth` lists and objects
/// are nested in one another.
pub open spec fn within(t: JsonView, depth: nat) -> bool
    decreases t,
{
    match t {
        JsonView::Number(_, signed, _) => signed matches Some(n) && t == int_tree(n),
        JsonView::List(s) => depth > 0 && forall|i: int|
            0 <= i < s.len() ==> within(#[trigger] s[i], (depth - 1) as nat),
        JsonView::Object(m) => depth > 0 && forall|k: Seq<char>|
            m.contains_key(k) ==> within(#[trigger] m[k], (depth - 1) as nat),
        _ => true,
    }
}

/// All numbers of the tree are integers, and it is not nested too deeply to be
/// read back.
pub open spec fn whole(t: JsonView) -> bool {
    within(t, MAX_DEPTH as nat)
}

impl JsonView {
    /// Member of an object.
    pub open spec fn get(self, key: Seq<char>) -> Option<JsonView> {
        match self {
            JsonView::Object(m) => if m.contains_key(key) {
                Some(m[key])
            } else {
                None
            },
            _ => None,
        }
    }

    /// A record of at most `n` fields: an object, or a list of the fields in order.
    pub open spec fn is_record(self, n: int) -> bool {
        match self {
            JsonView::Object(_) => true,
            JsonView::List(s) => s.len() <= n,
            _ => false,
        }
    }

    /// Field of a record: the member of an object, or the item of a list.
    pub open spec fn field(self, key: Seq<char>, at: int) -> Option<JsonView> {
        match self {
            JsonView::List(s) => if 0 <= at < s.len() {
                Some(s[at])
            } else {
                None
            },
            _ => self.get(key),
        }
    }

    pub open spec fn text(self) -> Option<Seq<char>> {
        match self {
            JsonView::Text(s) => Some(s),
            _ => None,
        }
    }

    pub open spec fn integer(self) -> Option<i64> {
        match self {
            JsonView::Number(_, i, _) => i,
            _ => None,
        }
    }

    pub open spec fn natural(self) -> Option<u64> {
        match self {
            JsonView::Number(_, _, u) => u,
            _ => None,
        }
    }

    pub open spec fn truth(self) -> Option<bool> {
        match self {
            JsonView::Bool(b) => Some(b),
            _ => None,
        }
    }

    /// Text member of an object.
    pub open spec fn text_at(self, key: Seq<char>) -> Option<Seq<char>> {
        match self.get(key) {
            Some(j) => j.text(),
            None => None,
        }
    }

    /// Integer member of an object, or a default.
    pub open spec fn int_or(self, key: Seq<char>, default: i64) -> i64 {
        match self.get(key) {
            Some(j) => match j.integer() {
                Some(n) => n,
                None => default,
            },
            None => default,
        }
    }

    /// Unsigned member of an object, or a default.
    pub open spec fn uint_or(self, key: Seq<char>, default: u64) -> u64 {
        match self.get(key) {
            Some(j) => match j.natural() {
                Some(n) => n,
                None => default,
            },
            None => default,
        }
    }

    /// Whether a member is `true`.
    pub open spec fn flag(self, key: Seq<char>) -> bool {
        self.get(key) matches Some(j) && j.truth() == Some(true)
    }
}

pub(crate) proof fn lemma_items(s: Seq<Json>)
    ensures
        items(s).len() == s.len(),
        forall|i: int| 0 <= i < s.len() ==> #[trigger] items(s)[i] == tree(s[i]),
    decreases s.len(),
{
    if s.len() > 0 {
        lemma_items(s.drop_last());
        assert forall|i: int| 0 <= i < s.len() implies #[trigger] items(s)[i] == tree(s[i]) by {
            if i < s.len() - 1 {
                assert(items(s)[i] == items(s.drop_last())[i]);
            }
        }
    }
}

impl Json {
    /// Member of an object.
    pub fn get(&self, key: &str) -> (r: Option<&Json>)
        ensures
            match r {
                Some(j) => self@.get(key@) == Some(j@),
                None => self@.get(key@) is None,
            },
    {
        match self {
            Json::Object(v) => {
                let mut k: usize = v.len();
                assert(v@.take(k as int) =~= v@);
                while k > 0
                    invariant
                        k <= v.len(),
                        members(v@).contains_key(key@) == members(v@.take(k as int)).contains_key(
                            key@,
                        ),
                        members(v@.take(k as int)).contains_key(key@) ==> members(v@)[key@]
                            == members(v@.take(k as int))[key@],
                        self@ == JsonView::Object(members(v@)),
                    decreases k,
                {
                    proof {
                        assert(v@.take(k as int).drop_last() =~= v@.take(k - 1));
                        assert(v@.take(k as int).last() == v@[k - 1]);
                    }
                    if text::same(v[k - 1].0.as_str(), key) {
                        return Some(&v[k - 1].1);
                    }
                    k = k - 1;
                }
                None
            },
            _ => None,
        }
    }

    /// Whether the value is a record of at most `n` fields.
    pub fn is_record(&self, n: usize) -> (r: bool)
        ensures
            r == self@.is_record(n as int),
    {
        match self {
            Json::Object(_) => true,
            Json::List(v) => {
                proof {
                    lemma_items(v@);
                }
                v.len() <= n
            },
            _ => false,
        }
    }

    /// Field of a record: the member of an object, or the item of a list.
    pub fn field(&self, key: &str, at: usize) -> (r: Option<&Json>)
        ensures
            match r {
                Some(j) => self@.field(key@, at as int) == Some(j@),
                None => self@.field(key@, at as int) is None,
            },
    {
        match self {
            Json::List(v) => {
                proof {
                    lemma_items(v@);
                }
                if at < v.len() {
                    Some(&v[at])
                } else {
                    None
                }
            },
            _ => self.get(key),
        }
    }

    pub fn as_str(&self) -> (r: Option<&str>)
        ensures
            match r {
                Some(s) => self@.text() == Some(s@),
                None => self@.text() is None,
            },
    {
        match self {
            Json::Text(s) => Some(s.as_str()),
            _ => None,
        }
    }

    pub fn as_i64(&self) -> (r: Option<i64>)
        ensures
            r == self@.integer(),
    {
        match self {
            Json::Number(n) => n.signed,
            _ => None,
        }
    }

    pub fn as_u64(&self) -> (r: Option<u64>)
        ensures
            r == self@.natural(),
    {
        match self {
            Json::Number(n) => n.unsigned,
            _ => None,
        }
    }

    pub fn as_bool(&self) -> (r: Option<bool>)
        ensures
            r == self@.truth(),
    {
        match self {
            Json::Bool(b) => Some(*b),
            _ => None,
        }
    }

    pub fn is_null(&self) -> (r: bool)
        ensures
            r == (self@ == JsonView::Null),
    {
        match self {
            Json::Null => true,
            _ => false,
        }
    }

    pub fn as_list(&self) -> (r: Option<&Vec<Json>>)
        ensures
            match r {
                Some(v) => {
                    &&& self@ == JsonView::List(items(v@))
                    &&& items(v@).len() == v.len()
                    &&& forall|i: int| 0 <= i < v.len() ==> #[trigger] items(v@)[i] == v@[i]@
                },
                None => !(self@ is List),
            },
    {
        match self {
            Json::List(v) => {
                proof {
                    lemma_items(v@);
                }
                Some(v)
            },
            _ => None,
        }
    }

    /// Text member of an object.
    pub fn text_at(&self, key: &str) -> (r: Option<&str>)
        ensures
            match r {
                Some(s) => self@.text_at(key@) == Some(s@),
                None => self@.text_at(key@) is None,
            },
    {
        match self.get(key) {
            Some(j) => j.as_str(),
            None => None,
        }
    }

    /// Integer member of an object, or a default.
    pub fn int_or(&self, key: &str, default: i64) -> (r: i64)
        ensures
            r == self@.int_or(key@, default),
    {
        match self.get(key) {
            Some(j) => match j.as_i64() {
                Some(n) => n,
                None => default,
            },
            None => default,
        }
    }

    /// Unsigned member of an object, or a default.
    pub fn uint_or(&self, key: &str, default: u64) -> (r: u64)
        ensures
            r == self@.uint_or(key@, default),
    {
        match self.get(key) {
            Some(j) => match j.as_u64() {
                Some(n) => n,
                None => default,
            },
            None => default,
        }
    }

    /// Whether a member is `true`.
    pub fn flag(&self, key: &str) -> (r: bool)
        ensures
            r == self@.flag(key@),
    {
        match self.get(key) {
            Some(j) => match j.as_bool() {
                Some(b) => b,
                None => false,
            },
            None => false,
        }
    }

    /// A text.
    pub fn text(s: &str) -> (r: Json)
        ensures
            r@ == JsonView::Text(s@),
            forall|d: nat| #[trigger] within(r@, d),
    {
        Json::Text(s.to_string())
    }

    /// A list of texts.
    pub fn texts(v: Vec<String>) -> (r: Json)
        ensures
            r@ == JsonView::List(v@.map_values(|s: String| JsonView::Text(s@))),
            forall|d: nat| d >= 1 ==> #[trigger] within(r@, d),
    {
        let ghost all = v@;
        let mut v = v;
        let mut list: Vec<Json> = Vec::new();
        let n: usize = v.len();
        let mut i: usize = 0;
        assert(all.skip(0) =~= all);
        while i < n
            invariant
                i <= n == all.len(),
                v@ == all.skip(i as int),
                list@.len() == i,
                forall|k: int| 0 <= k < i ==> (#[trigger] list@[k])@ == JsonView::Text(all[k]@),
            decreases n - i,
        {
            let s = v.remove(0);
            assert(v@ =~= all.skip(i + 1));
            list.push(Json::Text(s));
            i = i + 1;
        }
        proof {
            lemma_items(list@);
            assert forall|k: int| 0 <= k < n implies #[trigger] items(list@)[k] == JsonView::Text(
                all[k]@,
            ) by {
                assert(list@[k]@ == JsonView::Text(all[k]@));
            }
            assert(items(list@) =~= all.map_values(|s: String| JsonView::Text(s@)));
            assert forall|d: nat| d >= 1 implies #[trigger] within(
                JsonView::List(items(list@)),
                d,
            ) by {
                assert forall|k: int| 0 <= k < items(list@).len() implies within(
                    #[trigger] items(list@)[k],
                    (d - 1) as nat,
                ) by {
                    assert(list@[k]@ == JsonView::Text(all[k]@));
                }
            }
        }
        Json::List(list)
    }

    /// An integer.
    pub fn integer(n: i64) -> (r: Json)
        ensures
            r@ == int_tree(n),
            forall|d: nat| #[trigger] within(r@, d),
    {
        let mut t = String::new();
        text::push_signed(&mut t, n);
        assert(t@ =~= text::signed_decimal(n as int));
        Json::Number(
            JsonNumber {
                text: t,
                signed: Some(n),
                unsigned: if n >= 0 {
                    Some(n as u64)
                } else {
                    None
                },
            },
        )
    }
}

proof fn lemma_within_insert(t: JsonView, u: JsonView, key: Seq<char>, x: JsonView, depth: nat)
    requires
        t is Object,
        depth > 0,
        within(t, depth),
        within(x, (depth - 1) as nat),
        u is Object,
        u->Object_0 == t->Object_0.insert(key, x),
    ensures
        within(u, depth),
{
    assert forall|k: Seq<char>| u->Object_0.contains_key(k) implies within(
        #[trigger] u->Object_0[k],
        (depth - 1) as nat,
    ) by {
        if k != key {
            assert(t->Object_0.contains_key(k));
            assert(within(t->Object_0[k], (depth - 1) as nat));
        }
    }
}

/// An object in the making.
pub struct Members {
    pub list: Vec<(String, Json)>,
}

impl View for Members {
    type V = Map<Seq<char>, JsonView>;

    open spec fn view(&self) -> Map<Seq<char>, JsonView> {
        members(self.list@)
    }
}

impl Members {
    pub fn new() -> (r: Members)
        ensures
            r@ == Map::<Seq<char>, JsonView>::empty(),
            forall|d: nat| d >= 1 ==> #[trigger] within(JsonView::Object(r@), d),
    {
        Members { list: Vec::new() }
    }

    /// The object with one member more.
    pub fn with(self, key: &str, value: Json) -> (r: Members)
        ensures
            r@ == self@.insert(key@, value@),
            forall|d: nat|
                d >= 1 && within(JsonView::Object(self@), d) && within(value@, (d - 1) as nat)
                    ==> #[trigger] within(JsonView::Object(r@), d),
    {
        let mut list = self.list;
        let ghost before = list@;
        list.push((key.to_string(), value));
        proof {
            assert(list@.drop_last() =~= before);
            assert forall|d: nat|
                d >= 1 && within(JsonView::Object(members(before)), d) && within(
                    value@,
                    (d - 1) as nat,
                ) implies #[trigger] within(JsonView::Object(members(list@)), d) by {
                lemma_within_insert(
                    JsonView::Object(members(before)),
                    JsonView::Object(members(list@)),
                    key@,
                    value@,
                    d,
                );
            }
        }
        Members { list }
    }

    pub fn object(self) -> (r: Json)
        ensures
            r@ == JsonView::Object(self@),
    {
        Json::Object(self.list)
    }
}

/// `serde_json::Value`, a value as `serde_json` holds it.
#[verifier::external_type_specification]
#[verifier::external_body]
pub struct ExValue(Value);

/// The tree that a `serde_json` value holds.
pub uninterp spec fn held_tree(v: Value) -> JsonView;

/// The tree that a text reads as.
pub uninterp spec fn json_of(text: Seq<char>) -> Option<JsonView>;

/// A tree in writing.
pub uninterp spec fn json_text(t: JsonView) -> Seq<char>;

/// Reads a text: `serde_json::from_str`. What it reads as is given a name.
#[verifier::external_body]
fn parse_value(s: &str) -> (r: Option<Value>)
    ensures
        match r {
            Some(v) => json_of(s@) == Some(held_tree(v)),
            None => json_of(s@) is None,
        },
{
    serde_json::from_str(s).ok()
}

/// A `serde_json` value as a value of ours: one arm for each variant of
/// `serde_json::Value`. Members of an object are held once.
#[verifier::external_body]
fn from_value(v: Value) -> (r: Json)
    ensures
        r@ == held_tree(v),
{
    match v {
        Value::Null => Json::Null,
        Value::Bool(b) => Json::Bool(b),
        Value::Number(n) => {
            Json::Number(JsonNumber { text: n.to_string(), signed: n.as_i64(), unsigned: n.as_u64() })
        },
        Value::String(s) => Json::Text(s),
        Value::Array(a) => Json::List(a.into_iter().map(from_value).collect()),
        Value::Object(m) => Json::Object(m.into_iter().map(|(k, x)| (k, from_value(x))).collect()),
    }
}

/// A value of ours as a `serde_json` value: one arm for each variant. Of two
/// members with one name the later one is held.
#[verifier::external_body]
fn to_value(j: &Json) -> (r: Value)
    requires
        whole(j@),
    ensures
        held_tree(r) == j@,
{
    match j {
        Json::Null => Value::Null,
        Json::Bool(b) => Value::Bool(*b),
        Json::Number(n) => Value::from(n.signed),
        Json::Text(s) => Value::String(s.clone()),
        Json::List(v) => Value::Array(v.iter().map(to_value).collect()),
        Json::Object(v) => Value::Object(v.iter().map(|m| (m.0.clone(), to_value(&m.1))).collect()),
    }
}

/// A value in writing: the `Display` of `serde_json::Value`. It is given a name.
/// The text reads as the value it was written from: all numbers are integers, and
/// the nesting stays within the recursion limit of the reader.
#[verifier::external_body]
fn value_text(v: &Value) -> (r: String)
    requires
        whole(held_tree(*v)),
    ensures
        r@ == json_text(held_tree(*v)),
        json_of(r@) == Some(held_tree(*v)),
{
    v.to_string()
}

/// Reads a JSON text; none where it is not JSON.
pub fn read_json(s: &str) -> (r: Option<Json>)
    ensures
        match r {
            Some(j) => json_of(s@) == Some(j@),
            None => json_of(s@) is None,
        },
{
    match parse_value(s) {
        Some(v) => Some(from_value(v)),
        None => None,
    }
}

/// A value in writing. It reads as the value it was written from.
pub fn write_json(j: &Json) -> (r: String)
    requires
        whole(j@),
    ensures
        r@ == json_text(j@),
        json_of(r@) == Some(j@),
{
    value_text(&to_value(j))
}

} // verus!
