use vstd::prelude::*;
use crate::text::str_eq;

verus! {

/// A JSON value as the library models it. Numbers keep only their kind: no
/// catalog field is numeric, so the validators only ever test for them.
pub enum JsonVal {
    Null,
    Bool(bool),
    Num,
    Str(String),
    Arr(Vec<JsonVal>),
    Obj(Vec<(String, JsonVal)>),
}

/// The mathematical value of a `JsonVal`.
pub enum JsonView {
    Null,
    Bool(bool),
    Num,
    Str(Seq<char>),
    Arr(Seq<JsonView>),
    Obj(Seq<(Seq<char>, JsonView)>),
}

/// The mathematical value of a `JsonVal`.
pub open spec fn jv_view(v: JsonVal) -> JsonView
    decreases v, 0nat,
{
    match v {
        JsonVal::Null => JsonView::Null,
        JsonVal::Bool(b) => JsonView::Bool(b),
        JsonVal::Num => JsonView::Num,
        JsonVal::Str(s) => JsonView::Str(s@),
        JsonVal::Arr(a) => JsonView::Arr(arr_views(a@)),
        JsonVal::Obj(fs) => JsonView::Obj(obj_views(fs@)),
    }
}

/// The mathematical values of a sequence of array elements.
pub open spec fn arr_views(elems: Seq<JsonVal>) -> Seq<JsonView>
    decreases elems, 1nat,
{
    if elems.len() == 0 {
        Seq::empty()
    } else {
        seq![jv_view(elems[0])] + arr_views(elems.subrange(1, elems.len() as int))
    }
}

/// The mathematical values of a sequence of object fields.
pub open spec fn obj_views(fields: Seq<(String, JsonVal)>) -> Seq<(Seq<char>, JsonView)>
    decreases fields, 1nat,
{
    if fields.len() == 0 {
        Seq::empty()
    } else {
        seq![(fields[0].0@, jv_view(fields[0].1))] + obj_views(
            fields.subrange(1, fields.len() as int),
        )
    }
}

/// `arr_views` maps the sequence pointwise.
pub broadcast proof fn lemma_arr_views(elems: Seq<JsonVal>)
    ensures
        (#[trigger] arr_views(elems)).len() == elems.len(),
        forall|i: int| 0 <= i < elems.len() ==> arr_views(elems)[i] == jv_view(elems[i]),
    decreases elems.len(),
{
    if elems.len() > 0 {
        lemma_arr_views(elems.subrange(1, elems.len() as int));
    }
}

/// `obj_views` maps the sequence pointwise.
pub broadcast proof fn lemma_obj_views(fields: Seq<(String, JsonVal)>)
    ensures
        (#[trigger] obj_views(fields)).len() == fields.len(),
        forall|i: int|
            0 <= i < fields.len() ==> obj_views(fields)[i] == (
            fields[i].0@,
            jv_view(fields[i].1),
            ),
    decreases fields.len(),
{
    if fields.len() > 0 {
        lemma_obj_views(fields.subrange(1, fields.len() as int));
    }
}

impl View for JsonVal {
    type V = JsonView;

    open spec fn view(&self) -> JsonView {
        jv_view(*self)
    }
}

/// What an `Arr` value's view holds is the elements' own views.
pub proof fn lemma_arr_deep_view(elems: &Vec<JsonVal>)
    ensures
        arr_views(elems@) == elems.deep_view(),
{
    lemma_arr_views(elems@);
    assert(arr_views(elems@) =~= elems.deep_view());
}

impl DeepView for JsonVal {
    type V = JsonView;

    open spec fn deep_view(&self) -> JsonView {
        self.view()
    }
}

/// Whether the object fields `fs` contain the key `k`.
pub open spec fn obj_has(fs: Seq<(Seq<char>, JsonView)>, k: Seq<char>) -> bool {
    exists|i: int| 0 <= i < fs.len() && fs[i].0 == k
}

/// The value of the first field of `fs` named `k`.
pub open spec fn obj_get(fs: Seq<(Seq<char>, JsonView)>, k: Seq<char>) -> JsonView
    decreases fs.len(),
{
    if fs.len() == 0 {
        JsonView::Null
    } else if fs[0].0 == k {
        fs[0].1
    } else {
        obj_get(fs.drop_first(), k)
    }
}

proof fn lemma_obj_get_first(fs: Seq<(Seq<char>, JsonView)>, k: Seq<char>, i: int)
    requires
        0 <= i < fs.len(),
        fs[i].0 == k,
        forall|j: int| 0 <= j < i ==> fs[j].0 != k,
    ensures
        obj_get(fs, k) == fs[i].1,
    decreases i,
{
    if i > 0 {
        lemma_obj_get_first(fs.drop_first(), k, i - 1);
    }
}

/// Looks the key up among the fields of a JSON object, returning the first
/// field of that name.
pub fn obj_lookup<'a>(v: &'a JsonVal, key: &str) -> (r: Option<&'a JsonVal>)
    requires
        v@ is Obj,
    ensures
        match r {
            Some(f) => obj_has(v@->Obj_0, key@) && f@ == obj_get(v@->Obj_0, key@),
            None => !obj_has(v@->Obj_0, key@),
        },
{
    match v {
        JsonVal::Obj(fields) => {
            proof {
                lemma_obj_views(fields@);
            }
            let n: usize = fields.len();
            let mut i: usize = 0;
            while i < n
                invariant
                    0 <= i <= n,
                    n == fields@.len(),
                    v@ is Obj,
                    v@->Obj_0 == obj_views(fields@),
                    obj_views(fields@).len() == fields@.len(),
                    forall|j: int|
                        0 <= j < fields@.len() ==> obj_views(fields@)[j] == (
                        fields@[j].0@,
                        jv_view(fields@[j].1),
                        ),
                    forall|j: int| 0 <= j < i ==> v@->Obj_0[j].0 != key@,
                decreases n - i,
            {
                if str_eq(fields[i].0.as_str(), key) {
                    proof {
                        lemma_obj_get_first(v@->Obj_0, key@, i as int);
                    }
                    return Some(&fields[i].1);
                }
                i = i + 1;
            }
            None
        },
        _ => None,
    }
}

#[verifier::external_type_specification]
#[verifier::external_body]
pub struct ExJsonValue(serde_json::Value);

/// What parsing a JSON text yields: the parsed value in the library's model,
/// or the parser's error message. Names the outcome of
/// `serde_json::from_str::<serde_json::Value>` on the text, which is a
/// function of the text alone.
pub uninterp spec fn json_parse(s: Seq<char>) -> Result<JsonView, Seq<char>>;

/// Relies on serde_json::Value's variants: rebuilds a parsed value as the
/// library's own model, one arm per variant; numbers keep only their kind.
#[verifier::external_body]
fn value_to_model(v: serde_json::Value) -> JsonVal {
    match v {
        serde_json::Value::Null => JsonVal::Null,
        serde_json::Value::Bool(b) => JsonVal::Bool(b),
        serde_json::Value::Number(_) => JsonVal::Num,
        serde_json::Value::String(s) => JsonVal::Str(s),
        serde_json::Value::Array(a) => JsonVal::Arr(a.into_iter().map(value_to_model).collect()),
        serde_json::Value::Object(m) => JsonVal::Obj(
            m.into_iter().map(|(k, w)| (k, value_to_model(w))).collect(),
        ),
    }
}

/// Relies on serde_json::from_str::<serde_json::Value>: parses JSON text into
/// a value; `json_parse` names the outcome, with the error rendered as text
/// when parsing fails. As in a `serde_json::Value`, an object key that the
/// text repeats keeps its last value: the model does not record the
/// repetition.
#[verifier::external_body]
pub fn parse_json(s: &str) -> (r: Result<JsonVal, String>)
    ensures
        match (r, json_parse(s@)) {
            (Ok(v), Ok(g)) => v@ == g,
            (Err(e), Err(g)) => e@ == g,
            _ => false,
        },
{
    match serde_json::from_str::<serde_json::Value>(s) {
        Ok(v) => Ok(value_to_model(v)),
        Err(e) => Err(e.to_string()),
    }
}

} // verus!
