//! JSON values as plain data.

use vstd::prelude::*;
use vstd::string::*;
use crate::text::same_text;

verus! {

broadcast use vstd::string::group_string_axioms;

/// A JSON value.
///
/// Whole numbers stand in `Unsigned` and `Negative`; `Decimal` holds any other number as it is
/// written. The members of an object stand in the order in which they were put in; where a key
/// occurs twice, the last of its members counts.
#[derive(Debug)]
pub enum Json {
    Null,
    Bool(bool),
    Unsigned(u64),
    Negative(i64),
    Decimal(String),
    Text(String),
    Array(Vec<Json>),
    Object(Vec<(String, Json)>),
}

/// What a [`Json`] value stands for.
pub enum JsonView {
    Null,
    Bool(bool),
    Unsigned(u64),
    Negative(i64),
    Decimal(Seq<char>),
    Text(Seq<char>),
    Array(Seq<JsonView>),
    Object(Seq<(Seq<char>, JsonView)>),
}

impl Json {
    /// What the value stands for.
    pub open spec fn model(self) -> JsonView
        decreases self,
    {
        match self {
            Json::Null => JsonView::Null,
            Json::Bool(b) => JsonView::Bool(b),
            Json::Unsigned(n) => JsonView::Unsigned(n),
            Json::Negative(n) => JsonView::Negative(n),
            Json::Decimal(s) => JsonView::Decimal(s@),
            Json::Text(s) => JsonView::Text(s@),
            Json::Array(items) => JsonView::Array(
                Seq::new(
                    items@.len(),
                    |i: int|
                        if 0 <= i < items@.len() {
                            items@[i].model()
                        } else {
                            JsonView::Null
                        },
                ),
            ),
            Json::Object(members) => JsonView::Object(
                Seq::new(
                    members@.len(),
                    |i: int|
                        if 0 <= i < members@.len() {
                            (members@[i].0@, members@[i].1.model())
                        } else {
                            (Seq::empty(), JsonView::Null)
                        },
                ),
            ),
        }
    }
}

impl View for Json {
    type V = JsonView;

    open spec fn view(&self) -> JsonView {
        self.model()
    }
}

impl DeepView for Json {
    type V = JsonView;

    open spec fn deep_view(&self) -> JsonView {
        self.model()
    }
}

/// The value of the last member under `key`.
pub open spec fn member(members: Seq<(Seq<char>, JsonView)>, key: Seq<char>) -> Option<JsonView>
    decreases members.len(),
{
    if members.len() == 0 {
        None
    } else if members.last().0 == key {
        Some(members.last().1)
    } else {
        member(members.drop_last(), key)
    }
}

impl Json {
    /// Looks a member of an object up.
    pub fn get(&self, key: &str) -> (r: Option<&Json>)
        ensures
            match self@ {
                JsonView::Object(members) => match r {
                    Some(v) => member(members, key@) == Some(v@),
                    None => member(members, key@) is None,
                },
                _ => r is None,
            },
    {
        match self {
            Json::Object(members) => {
                let ghost all = self@->Object_0;
                let mut i: usize = members.len();
                assert(all.take(i as int) =~= all);
                while i > 0
                    invariant
                        i <= members@.len(),
                        self@ == JsonView::Object(all),
                        *self == Json::Object(*members),
                        all.len() == members@.len(),
                        member(all, key@) == member(all.take(i as int), key@),
                    decreases i,
                {
                    let ghost upto = all.take(i as int);
                    assert(upto.drop_last() =~= all.take(i - 1));
                    assert(upto.last() == (members@[i - 1].0@, members@[i - 1].1@));
                    if same_text(members[i - 1].0.as_str(), key) {
                        return Some(&members[i - 1].1);
                    }
                    i -= 1;
                }
                None
            },
            _ => None,
        }
    }
}

/// A text, or `null` where there is none.
pub open spec fn text_or_null(t: Option<Seq<char>>) -> JsonView {
    match t {
        Some(s) => JsonView::Text(s),
        None => JsonView::Null,
    }
}

impl Json {
    /// A text value.
    pub fn text(s: &str) -> (r: Json)
        ensures
            r@ == JsonView::Text(s@),
    {
        Json::Text(s.to_string())
    }

    /// A text value, or `null` where there is no text.
    pub fn optional_text(s: &Option<String>) -> (r: Json)
        ensures
            r@ == text_or_null(s.deep_view()),
    {
        match s {
            Some(s) => Json::Text(s.clone()),
            None => Json::Null,
        }
    }

    /// An object with the given members.
    pub fn object(members: Vec<(String, Json)>) -> (r: Json)
        ensures
            r@ == JsonView::Object(members.deep_view()),
    {
        let r = Json::Object(members);
        assert(r@->Object_0 =~= members.deep_view());
        r
    }
}

/// The JSON values of `serde_json`.
#[verifier::external_type_specification]
#[verifier::external_body]
pub struct ExSerdeValue(serde_json::Value);

/// The text that `serde_json` writes for a value.
pub uninterp spec fn json_text(v: JsonView) -> Seq<char>;

/// Rebuilds a value as a `serde_json::Value`, variant by variant, for [`serde_text`]. Nothing is
/// claimed of the result. A `Decimal` that is no number becomes `null`.
#[verifier::external_body]
fn serde_value(v: &Json) -> serde_json::Value {
    match v {
        Json::Null => serde_json::Value::Null,
        Json::Bool(b) => (*b).into(),
        Json::Unsigned(n) => (*n).into(),
        Json::Negative(n) => (*n).into(),
        Json::Decimal(s) => s.parse().ok().and_then(serde_json::Number::from_f64).into(),
        Json::Text(s) => s.as_str().into(),
        Json::Array(items) => items.iter().map(serde_value).collect(),
        Json::Object(members) => members.iter().map(|m| (m.0.clone(), serde_value(&m.1))).collect(),
    }
}

/// Writes a value as JSON with `serde_json::to_string`. The text depends on the value alone: no
/// more is claimed of it.
#[verifier::external_body]
fn serde_text(v: &Json) -> (r: String)
    ensures
        r@ == json_text(v@),
{
    serde_json::to_string(&serde_value(v)).unwrap_or_default()
}

impl Json {
    /// Writes the value as compact JSON.
    pub fn to_text(&self) -> (r: String)
        ensures
            r@ == json_text(self@),
    {
        serde_text(self)
    }
}

/// Where a key occurs more than once, the last of its members counts; and no member is found under a
/// key that does not occur.
pub proof fn the_last_member_counts(
    front: Seq<(Seq<char>, JsonView)>,
    key: Seq<char>,
    value: JsonView,
    back: Seq<(Seq<char>, JsonView)>,
)
    requires
        forall|i: int| 0 <= i < back.len() ==> (#[trigger] back[i]).0 != key,
    ensures
        member(front + seq![(key, value)] + back, key) == Some(value),
        member(back, key) is None,
    decreases back.len(),
{
    let all = front + seq![(key, value)] + back;
    if back.len() > 0 {
        let fewer = back.drop_last();
        assert(back[back.len() - 1].0 != key);
        assert forall|i: int| 0 <= i < fewer.len() implies (#[trigger] fewer[i]).0 != key by {
            assert(back[i].0 != key);
        }
        the_last_member_counts(front, key, value, fewer);
        assert(all.drop_last() =~= front + seq![(key, value)] + fewer);
    }
}

/// A text that is there is a text, and one that is not is `null`.
pub proof fn a_missing_text_is_null(t: Option<Seq<char>>, s: Seq<char>)
    ensures
        t is None <==> text_or_null(t) == JsonView::Null,
        t == Some(s) <==> text_or_null(t) == JsonView::Text(s),
{
}

/// A member is found under its key where no later one has the same.
pub proof fn lemma_member_at(members: Seq<(Seq<char>, JsonView)>, i: int)
    requires
        0 <= i < members.len(),
        forall|j: int| i < j < members.len() ==> (#[trigger] members[j]).0 != members[i].0,
    ensures
        member(members, members[i].0) == Some(members[i].1),
{
    let back = members.skip(i + 1);
    assert forall|j: int| 0 <= j < back.len() implies (#[trigger] back[j]).0 != members[i].0 by {
        assert(members[i + 1 + j].0 != members[i].0);
    }
    the_last_member_counts(members.take(i), members[i].0, members[i].1, back);
    assert(members.take(i) + seq![(members[i].0, members[i].1)] + back =~= members);
}

/// A JSON value stands for what it holds: its parts one by one, in order, each member under its key.
pub proof fn a_value_stands_for_all_it_holds(v: Json)
    ensures
        v is Null <==> v@ is Null,
        v matches Json::Bool(b) ==> v@ == JsonView::Bool(b),
        v matches Json::Unsigned(n) ==> v@ == JsonView::Unsigned(n),
        v matches Json::Negative(n) ==> v@ == JsonView::Negative(n),
        v matches Json::Decimal(s) ==> v@ == JsonView::Decimal(s@),
        v matches Json::Text(s) ==> v@ == JsonView::Text(s@),
        v matches Json::Array(items) ==> (v@ matches JsonView::Array(views) && {
            &&& views.len() == items@.len()
            &&& forall|i: int| 0 <= i < items@.len() ==> #[trigger] views[i] == items@[i]@
        }),
        v matches Json::Object(members) ==> (v@ matches JsonView::Object(views) && {
            &&& views.len() == members@.len()
            &&& forall|i: int|
                0 <= i < members@.len() ==> #[trigger] views[i] == (
                    members@[i].0@,
                    members@[i].1@,
                )
        }),
        v.deep_view() == v@,
{
}

} // verus!
