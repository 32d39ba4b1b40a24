//! JSON: the values that requests carry, and what is read out of JSON text.

use crate::text;
use vstd::prelude::*;

verus! {

// ---------------------------------------------------------------------------
// Values
// ---------------------------------------------------------------------------
/// A JSON value, of the kinds that requests are made of.
#[derive(Debug)]
pub enum Json {
    Bool(bool),
    Text(String),
    List(Vec<Json>),
    Object(Vec<Member>),
}

/// A member of a JSON object.
#[derive(Debug)]
pub struct Member {
    pub key: String,
    pub value: Json,
}

/// What a [`Json`] holds.
pub enum JsonView {
    Bool(bool),
    Text(Seq<char>),
    List(Seq<JsonView>),
    Object(Seq<MemberView>),
}

/// What a [`Member`] holds.
pub struct MemberView {
    pub key: Seq<char>,
    pub value: JsonView,
}

impl View for Json {
    type V = JsonView;

    open spec fn view(&self) -> JsonView
        decreases self,
    {
        match self {
            Json::Bool(b) => JsonView::Bool(*b),
            Json::Text(s) => JsonView::Text(s@),
            Json::List(v) => JsonView::List(
                Seq::new(
                    v@.len(),
                    |i: int|
                        if 0 <= i < v@.len() {
                            v@[i].view()
                        } else {
                            JsonView::Bool(false)
                        },
                ),
            ),
            Json::Object(v) => JsonView::Object(
                Seq::new(
                    v@.len(),
                    |i: int|
                        if 0 <= i < v@.len() {
                            MemberView { key: v@[i].key@, value: v@[i].value.view() }
                        } else {
                            MemberView { key: Seq::empty(), value: JsonView::Bool(false) }
                        },
                ),
            ),
        }
    }
}

impl Member {
    /// What the member holds.
    pub open spec fn model(self) -> MemberView {
        MemberView { key: self.key@, value: self.value@ }
    }
}

/// What a list of values holds.
pub open spec fn values(v: Seq<Json>) -> Seq<JsonView> {
    Seq::new(v.len(), |i: int| v[i]@)
}

/// What a list of members holds.
pub open spec fn members(v: Seq<Member>) -> Seq<MemberView> {
    Seq::new(v.len(), |i: int| v[i].model())
}

/// A list of texts.
pub open spec fn text_list(v: Seq<Seq<char>>) -> JsonView {
    JsonView::List(Seq::new(v.len(), |i: int| JsonView::Text(v[i])))
}

/// A truth value.
pub fn flag(b: bool) -> (r: Json)
    ensures
        r@ == JsonView::Bool(b),
{
    Json::Bool(b)
}

/// A text.
pub fn string(s: &str) -> (r: Json)
    ensures
        r@ == JsonView::Text(s@),
{
    Json::Text(s.to_owned())
}

/// A list.
pub fn list(v: Vec<Json>) -> (r: Json)
    ensures
        r@ == JsonView::List(values(v@)),
{
    let r = Json::List(v);
    assert(r@->List_0 =~= values(v@));
    r
}

/// A list of texts.
pub fn strings(v: &[String]) -> (r: Json)
    ensures
        r@ == text_list(text::texts(v@)),
{
    let mut out: Vec<Json> = Vec::new();
    let mut i: usize = 0;
    while i < v.len()
        invariant
            i <= v@.len(),
            out@.len() == i,
            forall|j: int| 0 <= j < i ==> (#[trigger] out@[j])@ == JsonView::Text(v@[j]@),
        decreases v@.len() - i,
    {
        out.push(string(v[i].as_str()));
        i += 1;
    }
    assert(values(out@) =~= text_list(text::texts(v@))->List_0);
    list(out)
}

/// A member of an object.
pub fn member(key: &str, value: Json) -> (r: Member)
    ensures
        r.model() == (MemberView { key: key@, value: value@ }),
{
    Member { key: key.to_owned(), value }
}

/// An object.
pub fn object(v: Vec<Member>) -> (r: Json)
    ensures
        r@ == JsonView::Object(members(v@)),
{
    let r = Json::Object(v);
    proof {
        let a = r@->Object_0;
        let b = members(v@);
        assert forall|i: int| 0 <= i < a.len() implies #[trigger] a[i] == b[i] by {
            assert(a[i].value == v@[i].value@);
        }
        assert(a =~= b);
    }
    r
}

/// An object with one member.
pub fn object1(a: Member) -> (r: Json)
    ensures
        r@ == JsonView::Object(seq![a.model()]),
{
    let mut v: Vec<Member> = Vec::new();
    v.push(a);
    assert(members(v@) =~= seq![a.model()]);
    object(v)
}

/// An object with two members.
pub fn object2(a: Member, b: Member) -> (r: Json)
    ensures
        r@ == JsonView::Object(seq![a.model(), b.model()]),
{
    let mut v: Vec<Member> = Vec::new();
    v.push(a);
    v.push(b);
    assert(members(v@) =~= seq![a.model(), b.model()]);
    object(v)
}

/// An object with three members.
pub fn object3(a: Member, b: Member, c: Member) -> (r: Json)
    ensures
        r@ == JsonView::Object(seq![a.model(), b.model(), c.model()]),
{
    let mut v: Vec<Member> = Vec::new();
    v.push(a);
    v.push(b);
    v.push(c);
    assert(members(v@) =~= seq![a.model(), b.model(), c.model()]);
    object(v)
}

// ---------------------------------------------------------------------------
// Reading JSON text
// ---------------------------------------------------------------------------
/// Whether `pairs` is `m` written out, each key once, in some order.
pub open spec fn writes_out(
    pairs: Seq<(Seq<char>, Seq<char>)>,
    m: Map<Seq<char>, Seq<char>>,
) -> bool {
    &&& forall|i: int, j: int| 0 <= i < j < pairs.len() ==> (#[trigger] pairs[i]).0 != (
    #[trigger] pairs[j]).0
    &&& forall|i: int|
        0 <= i < pairs.len() ==> m.contains_key((#[trigger] pairs[i]).0) && m[pairs[i].0]
            == pairs[i].1
    &&& forall|k: Seq<char>| #[trigger]
        m.contains_key(k) ==> exists|i: int| 0 <= i < pairs.len() && (#[trigger] pairs[i]).0 == k
}

/// What `serde_json::from_str` makes of a text that is to be an object whose
/// members are all strings: the members, or its error in words.
pub uninterp spec fn string_object(raw: Seq<char>) -> Result<
    Map<Seq<char>, Seq<char>>,
    Seq<char>,
>;

/// Calls `serde_json::from_str` for a map from strings to strings. The contract
/// says that the call succeeds or fails by the text alone, that the pairs that
/// come back are the members of the object, each key once, and that the order
/// they come in, which is that of a hash map, is anything.
#[verifier::external_body]
pub(crate) fn read_string_object(raw: &str) -> (r: Result<Vec<(String, String)>, String>)
    ensures
        match r {
            Ok(pairs) => string_object(raw@) is Ok && writes_out(
                text::pair_texts(pairs@),
                string_object(raw@)->Ok_0,
            ),
            Err(e) => string_object(raw@) == Err::<Map<Seq<char>, Seq<char>>, Seq<char>>(e@),
        },
{
    let parsed = serde_json::from_str::<std::collections::HashMap<String, String>>(raw);
    parsed.map(|m| m.into_iter().collect()).map_err(|e| e.to_string())
}

/// The string that `serde_json` finds in the JSON text `raw` under the JSON
/// pointer `pointer`; `None` where `raw` is no JSON, the pointer leads nowhere
/// or what it leads to is no string.
pub uninterp spec fn string_under(raw: Seq<char>, pointer: Seq<char>) -> Option<Seq<char>>;

/// Calls `serde_json::from_str`, then `Value::pointer`, then `Value::as_str`.
/// The contract says that what comes back depends on the two texts alone.
#[verifier::external_body]
pub(crate) fn read_string_under(raw: &str, pointer: &str) -> (r: Option<String>)
    ensures
        text::opt_text(r) == string_under(raw@, pointer@),
{
    let value = serde_json::from_str::<serde_json::Value>(raw).ok()?;
    value.pointer(pointer).and_then(|v| v.as_str()).map(str::to_owned)
}

} // verus!
