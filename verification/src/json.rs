//! JSON documents: manifests, package metadata and sidecars.
//!
//! The text is read and written by `serde_json`; the library works on its own
//! [`Json`] value. A [`JsonTree`] is what such a value holds.

use vstd::prelude::*;

use crate::text;

verus! {

/// `serde_json::Value`, a parsed document.
#[verifier::external_type_specification]
#[verifier::external_body]
pub struct ExValue(serde_json::Value);

/// `serde_json::Number`, a number of any kind.
#[verifier::external_type_specification]
#[verifier::external_body]
pub struct ExNumber(serde_json::Number);

/// A JSON document.
pub enum Json {
    Null,
    Bool(bool),
    /// A whole number that fits in 64 bits without a sign.
    Unsigned(u64),
    /// A whole number below zero that fits in 64 bits.
    Negative(i64),
    /// Any other number, carried as it is.
    OtherNumber(serde_json::Number),
    Text(String),
    Array(Vec<Json>),
    /// The members, in the order in which `serde_json` walks them.
    Object(Vec<(String, Json)>),
}

/// What a [`Json`] holds.
pub enum JsonTree {
    Null,
    Bool(bool),
    Unsigned(u64),
    Negative(i64),
    OtherNumber(serde_json::Number),
    Text(Seq<char>),
    Array(Seq<JsonTree>),
    Object(Seq<(Seq<char>, JsonTree)>),
}

/// What a document holds.
pub open spec fn tree(j: Json) -> JsonTree
    decreases j,
{
    match j {
        Json::Null => JsonTree::Null,
        Json::Bool(b) => JsonTree::Bool(b),
        Json::Unsigned(n) => JsonTree::Unsigned(n),
        Json::Negative(n) => JsonTree::Negative(n),
        Json::OtherNumber(n) => JsonTree::OtherNumber(n),
        Json::Text(s) => JsonTree::Text(s@),
        Json::Array(v) => JsonTree::Array(trees(v@)),
        Json::Object(m) => JsonTree::Object(members(m@)),
    }
}

/// What the elements of an array hold.
pub open spec fn trees(v: Seq<Json>) -> Seq<JsonTree>
    decreases v,
{
    if v.len() == 0 {
        Seq::empty()
    } else {
        trees(v.drop_last()).push(tree(v.last()))
    }
}

/// What the members of an object hold.
pub open spec fn members(m: Seq<(String, Json)>) -> Seq<(Seq<char>, JsonTree)>
    decreases m,
{
    if m.len() == 0 {
        Seq::empty()
    } else {
        members(m.drop_last()).push((m.last().0@, tree(m.last().1)))
    }
}

impl View for Json {
    type V = JsonTree;

    open spec fn view(&self) -> JsonTree {
        tree(*self)
    }
}

/// The names ascend, and none is of the kind that `serde_json` keeps for its
/// own use.
pub open spec fn plain_names(m: Seq<(Seq<char>, JsonTree)>) -> bool {
    &&& forall|i: int|
        0 <= i < m.len() ==> text::without_prefix(
            (#[trigger] m[i]).0,
            "$serde_json::private::"@,
        ) is None
    &&& forall|i: int, j: int|
        0 <= i < j < m.len() ==> (#[trigger] m[i]).0 != (#[trigger] m[j]).0 && text::text_le(
            m[i].0,
            m[j].0,
        )
}

/// The document holds no numbers but whole ones of 64 bits, the names of its
/// objects are plain, and it nests no deeper than `depth`.
pub open spec fn plain(doc: JsonTree, depth: nat) -> bool
    decreases depth,
{
    match doc {
        JsonTree::Negative(n) => n < 0,
        JsonTree::OtherNumber(_) => false,
        JsonTree::Array(v) => if depth == 0 {
            false
        } else {
            forall|i: int| 0 <= i < v.len() ==> plain(#[trigger] v[i], (depth - 1) as nat)
        },
        JsonTree::Object(m) => if depth == 0 {
            false
        } else {
            plain_names(m) && forall|i: int|
                0 <= i < m.len() ==> plain((#[trigger] m[i]).1, (depth - 1) as nat)
        },
        _ => true,
    }
}

/// The document is read back as it is once it has been written.
pub open spec fn reads_back(doc: JsonTree) -> bool {
    plain(doc, 127)
}

/// The document that `serde_json::from_slice` reads from the bytes, where it
/// reads one.
pub uninterp spec fn parsed(data: Seq<u8>) -> Option<JsonTree>;

/// The bytes that `serde_json::to_vec` writes for the document, where it does.
pub uninterp spec fn rendered(doc: JsonTree) -> Option<Seq<u8>>;

/// `serde_json::from_slice`: reads a document from bytes. What it reads, and
/// whether it can, depends on the bytes alone.
#[verifier::external_body]
pub(crate) fn parse_json(data: &[u8]) -> (r: Option<Json>)
    ensures
        match r {
            Some(j) => parsed(data@) == Some(j@),
            None => parsed(data@) is None,
        },
{
    serde_json::from_slice::<serde_json::Value>(data).ok().map(from_value)
}

/// Takes a `serde_json::Value` over, variant for variant.
#[verifier::external_body]
fn from_value(v: serde_json::Value) -> Json {
    match v {
        serde_json::Value::Null => Json::Null,
        serde_json::Value::Bool(b) => Json::Bool(b),
        serde_json::Value::Number(n) => match (n.as_u64(), n.as_i64()) {
            (Some(u), _) => Json::Unsigned(u),
            (None, Some(i)) => Json::Negative(i),
            (None, None) => Json::OtherNumber(n),
        },
        serde_json::Value::String(s) => Json::Text(s),
        serde_json::Value::Array(v) => Json::Array(v.into_iter().map(from_value).collect()),
        serde_json::Value::Object(m) => {
            Json::Object(m.into_iter().map(|(k, v)| (k, from_value(v))).collect())
        },
    }
}

/// `serde_json::to_vec`: writes a document as bytes. What it writes depends on
/// the document alone. A document that [`reads_back`] admits is written, and
/// `serde_json::from_slice` reads the same document from the bytes: it nests
/// up to 127 arrays and objects, and hands the members of an object out by
/// ascending name. Nothing is said of reading back numbers with a fraction or of
/// more than 64 bits, which may be rounded, and names that begin with
/// `$serde_json::private::`, which it takes for marks of its own.
#[verifier::external_body]
pub(crate) fn render_json(j: &Json) -> (r: Option<Vec<u8>>)
    ensures
        match r {
            Some(data) => rendered(j@) == Some(data@),
            None => rendered(j@) is None,
        },
        match r {
            Some(data) => reads_back(j@) ==> parsed(data@) == Some(j@),
            None => !reads_back(j@),
        },
{
    serde_json::to_vec(&to_value(j)).ok()
}

/// Hands a document to `serde_json` as its own value, variant for variant.
#[verifier::external_body]
fn to_value(j: &Json) -> serde_json::Value {
    match j {
        Json::Null => serde_json::Value::Null,
        Json::Bool(b) => serde_json::Value::Bool(*b),
        Json::Unsigned(n) => serde_json::Value::Number((*n).into()),
        Json::Negative(n) => serde_json::Value::Number((*n).into()),
        Json::OtherNumber(n) => serde_json::Value::Number(n.clone()),
        Json::Text(s) => serde_json::Value::String(s.clone()),
        Json::Array(v) => serde_json::Value::Array(v.iter().map(to_value).collect()),
        Json::Object(m) => {
            serde_json::Value::Object(m.iter().map(|(k, v)| (k.clone(), to_value(v))).collect())
        },
    }
}

/// The first member of that name among the members of an object.
pub open spec fn named(m: Seq<(Seq<char>, JsonTree)>, name: Seq<char>) -> Option<JsonTree>
    decreases m.len(),
{
    if m.len() == 0 {
        None
    } else if m[0].0 == name {
        Some(m[0].1)
    } else {
        named(m.drop_first(), name)
    }
}

/// The member of that name, where the document is an object that has it.
pub open spec fn member(doc: JsonTree, name: Seq<char>) -> Option<JsonTree> {
    match doc {
        JsonTree::Object(m) => named(m, name),
        _ => None,
    }
}

/// The text, where the document is one.
pub open spec fn as_text(doc: Option<JsonTree>) -> Option<Seq<char>> {
    match doc {
        Some(JsonTree::Text(s)) => Some(s),
        _ => None,
    }
}

/// The number, where the document is a whole one without a sign.
pub open spec fn as_unsigned(doc: Option<JsonTree>) -> Option<u64> {
    match doc {
        Some(JsonTree::Unsigned(n)) => Some(n),
        _ => None,
    }
}

/// The text of the member of that name.
pub open spec fn text_member(doc: JsonTree, name: Seq<char>) -> Option<Seq<char>> {
    as_text(member(doc, name))
}

pub proof fn lemma_trees(v: Seq<Json>)
    ensures
        trees(v).len() == v.len(),
        forall|i: int| 0 <= i < v.len() ==> #[trigger] trees(v)[i] == v[i]@,
    decreases v.len(),
{
    if v.len() > 0 {
        lemma_trees(v.drop_last());
    }
}

pub proof fn lemma_members(m: Seq<(String, Json)>)
    ensures
        members(m).len() == m.len(),
        forall|i: int| 0 <= i < m.len() ==> #[trigger] members(m)[i] == (m[i].0@, m[i].1@),
    decreases m.len(),
{
    if m.len() > 0 {
        lemma_members(m.drop_last());
    }
}

/// A member is found by its name: the first that goes by it, and none where no
/// member does.
pub proof fn members_are_found_by_name(m: Seq<(Seq<char>, JsonTree)>, name: Seq<char>)
    ensures
        match member(JsonTree::Object(m), name) {
            Some(value) => exists|i: int|
                0 <= i < m.len() && #[trigger] m[i] == (name, value) && forall|j: int|
                    0 <= j < i ==> (#[trigger] m[j]).0 != name,
            None => forall|j: int| 0 <= j < m.len() ==> (#[trigger] m[j]).0 != name,
        },
    decreases m.len(),
{
    if m.len() > 0 && m[0].0 != name {
        let rest = m.drop_first();
        members_are_found_by_name(rest, name);
        assert(forall|j: int| 0 <= j < rest.len() ==> #[trigger] rest[j] == m[j + 1]);
        assert forall|j: int| 0 < j < m.len() implies #[trigger] m[j] == rest[j - 1] by {}
        if let Some(value) = named(m, name) {
            let i = choose|i: int|
                0 <= i < rest.len() && #[trigger] rest[i] == (name, value) && forall|j: int|
                    0 <= j < i ==> (#[trigger] rest[j]).0 != name;
            assert(m[i + 1] == (name, value));
        }
    } else if m.len() > 0 {
        assert(m[0] == (name, m[0].1));
    }
}

/// Only objects have members, and only texts and whole numbers without a sign
/// are read as such.
pub proof fn values_are_read_by_their_kind(doc: JsonTree, name: Seq<char>)
    ensures
        !(doc is Object) ==> member(doc, name) is None,
        text_member(doc, name) matches Some(s) ==> member(doc, name) == Some(JsonTree::Text(s)),
        member(doc, name) matches Some(JsonTree::Text(s)) ==> text_member(doc, name) == Some(s),
        as_unsigned(member(doc, name)) matches Some(n) ==> member(doc, name) == Some(
            JsonTree::Unsigned(n),
        ),
        member(doc, name) matches Some(JsonTree::Unsigned(n)) ==> as_unsigned(member(doc, name))
            == Some(n),
{
}

/// The member of that name, where the document is an object that has it.
pub fn get<'a>(j: &'a Json, name: &str) -> (r: Option<&'a Json>)
    ensures
        match r {
            Some(k) => member(j@, name@) == Some(k@),
            None => member(j@, name@) is None,
        },
{
    match j {
        Json::Object(m) => {
            let ghost ms = members(m@);
            proof {
                lemma_members(m@);
                assert(ms.skip(0) =~= ms);
            }
            let mut i: usize = 0;
            while i < m.len()
                invariant
                    i <= m@.len(),
                    j@ == JsonTree::Object(ms),
                    ms == members(m@),
                    ms.len() == m@.len(),
                    forall|i: int| 0 <= i < m@.len() ==> #[trigger] ms[i] == (m@[i].0@, m@[i].1@),
                    named(ms, name@) == named(ms.skip(i as int), name@),
                decreases m@.len() - i,
            {
                proof {
                    assert(ms[i as int] == ms.skip(i as int)[0]);
                    assert(ms.skip(i as int).drop_first() =~= ms.skip(i + 1));
                }
                if text::same(m[i].0.as_str(), name) {
                    return Some(&m[i].1);
                }
                i = i + 1;
            }
            None
        },
        _ => None,
    }
}

/// The text of the member of that name.
pub fn get_text<'a>(j: &'a Json, name: &str) -> (r: Option<&'a str>)
    ensures
        match r {
            Some(s) => text_member(j@, name@) == Some(s@),
            None => text_member(j@, name@) is None,
        },
{
    match get(j, name) {
        Some(Json::Text(s)) => Some(s.as_str()),
        _ => None,
    }
}

/// The number in the member of that name.
pub fn get_unsigned(j: &Json, name: &str) -> (r: Option<u64>)
    ensures
        r == as_unsigned(member(j@, name@)),
{
    match get(j, name) {
        Some(Json::Unsigned(n)) => Some(*n),
        _ => None,
    }
}

} // verus!
