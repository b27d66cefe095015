//! JSON values as the engine reads and builds them.
//!
//! Text is turned into values, and values into text, by the caller.

use vstd::prelude::*;

use crate::lists::{holds, key_at, lemma_key_at, value_at, with_value};
use crate::manifest::string_texts;
use crate::text::same_str;

verus! {

/// A JSON value.
pub enum Json {
    Null,
    Bool(bool),
    /// A whole number from zero on.
    Unsigned(u64),
    /// A whole number below zero.
    Negative(i64),
    /// Any other number, as it is written.
    Float(String),
    /// The quotient of two whole numbers.
    Quotient { num: u64, den: u64 },
    /// The quotient of two whole numbers as text with three decimals.
    QuotientText { num: u64, den: u64 },
    Str(String),
    Arr(Vec<Json>),
    Obj(Vec<Field>),
}

/// One entry of an object.
pub struct Field {
    pub key: String,
    pub value: Json,
    /// The value as compact JSON text, as its reader prints it. Empty in objects that
    /// were built here.
    pub text: String,
}

/// What a JSON value says.
pub enum JsonView {
    Null,
    Bool(bool),
    Unsigned(u64),
    Negative(i64),
    Float(Seq<char>),
    Quotient(u64, u64),
    QuotientText(u64, u64),
    Str(Seq<char>),
    Arr(Seq<JsonView>),
    Obj(Seq<(Seq<char>, JsonView)>),
}

impl Json {
    pub open spec fn view(&self) -> JsonView
        decreases self,
    {
        match self {
            Json::Null => JsonView::Null,
            Json::Bool(b) => JsonView::Bool(*b),
            Json::Unsigned(n) => JsonView::Unsigned(*n),
            Json::Negative(n) => JsonView::Negative(*n),
            Json::Float(t) => JsonView::Float(t@),
            Json::Quotient { num, den } => JsonView::Quotient(*num, *den),
            Json::QuotientText { num, den } => JsonView::QuotientText(*num, *den),
            Json::Str(s) => JsonView::Str(s@),
            Json::Arr(v) => JsonView::Arr(
                Seq::new(
                    v@.len(),
                    |i: int|
                        if 0 <= i < v@.len() {
                            v@[i].view()
                        } else {
                            JsonView::Null
                        },
                ),
            ),
            Json::Obj(f) => JsonView::Obj(
                Seq::new(
                    f@.len(),
                    |i: int|
                        if 0 <= i < f@.len() {
                            (f@[i].key@, f@[i].value.view())
                        } else {
                            (Seq::empty(), JsonView::Null)
                        },
                ),
            ),
        }
    }

    /// The entries of an object; none of any other value.
    pub open spec fn entries(&self) -> Seq<Field> {
        match self {
            Json::Obj(f) => f@,
            _ => Seq::empty(),
        }
    }
}

/// What a JSON value says, with the text of each entry at any depth.
pub enum FullView {
    Plain(JsonView),
    Arr(Seq<FullView>),
    Obj(Seq<(Seq<char>, FullView, Seq<char>)>),
}

impl Json {
    pub open spec fn full(&self) -> FullView
        decreases self,
    {
        match self {
            Json::Arr(v) => FullView::Arr(
                Seq::new(
                    v@.len(),
                    |i: int|
                        if 0 <= i < v@.len() {
                            v@[i].full()
                        } else {
                            FullView::Plain(JsonView::Null)
                        },
                ),
            ),
            Json::Obj(f) => FullView::Obj(
                Seq::new(
                    f@.len(),
                    |i: int|
                        if 0 <= i < f@.len() {
                            (f@[i].key@, f@[i].value.full(), f@[i].text@)
                        } else {
                            (Seq::empty(), FullView::Plain(JsonView::Null), Seq::empty())
                        },
                ),
            ),
            _ => FullView::Plain(self@),
        }
    }
}

/// What some values say, with all texts.
pub open spec fn fulls(v: Seq<Json>) -> Seq<FullView> {
    Seq::new(v.len(), |i: int| v[i].full())
}

/// What some entries say, with all texts.
pub open spec fn full_fields(v: Seq<Field>) -> Seq<(Seq<char>, FullView, Seq<char>)> {
    Seq::new(v.len(), |i: int| (v[i].key@, v[i].value.full(), v[i].text@))
}

/// An array says in full what its values say.
pub proof fn lemma_full_arr(v: Vec<Json>)
    ensures
        Json::Arr(v).full() == FullView::Arr(fulls(v@)),
{
    assert(Json::Arr(v).full()->Arr_0 =~= fulls(v@));
}

/// An object says in full what its entries say.
pub proof fn lemma_full_obj(v: Vec<Field>)
    ensures
        Json::Obj(v).full() == FullView::Obj(full_fields(v@)),
{
    assert(Json::Obj(v).full()->Obj_0 =~= full_fields(v@));
}

/// Values that say the same in full say the same, and so do their entries.
pub proof fn lemma_full_says(a: Json, b: Json)
    requires
        a.full() == b.full(),
    ensures
        a@ == b@,
        said(a.entries()) == said(b.entries()),
    decreases a,
{
    match a {
        Json::Arr(v) => {
            lemma_full_arr(v);
            match b {
                Json::Arr(w) => {
                    lemma_full_arr(w);
                    lemma_arr_view(v);
                    lemma_arr_view(w);
                    assert(fulls(v@).len() == v@.len() && fulls(w@).len() == w@.len());
                    assert forall|i: int| 0 <= i < v@.len() implies (#[trigger] v@[i])@ == w@[i]@ by {
                        assert(fulls(v@)[i] == fulls(w@)[i]);
                        assert(decreases_to!(a => a->Arr_0));
                        assert(decreases_to!(v => v@));
                        assert(decreases_to!(v@ => v@[i]));
                        lemma_full_says(v@[i], w@[i]);
                    }
                    assert(json_views(v@) =~= json_views(w@));
                    assert(said(a.entries()) =~= said(b.entries()));
                },
                _ => {},
            }
        },
        Json::Obj(v) => {
            lemma_full_obj(v);
            match b {
                Json::Obj(w) => {
                    lemma_full_obj(w);
                    lemma_obj_view(v);
                    lemma_obj_view(w);
                    assert(full_fields(v@).len() == v@.len() && full_fields(w@).len() == w@.len());
                    assert forall|i: int| 0 <= i < v@.len() implies (#[trigger] v@[i]).key@ == w@[i].key@
                        && v@[i].value@ == w@[i].value@ && v@[i].text@ == w@[i].text@ by {
                        assert(full_fields(v@)[i] == full_fields(w@)[i]);
                        assert(decreases_to!(a => a->Obj_0));
                        assert(decreases_to!(v => v@));
                        assert(decreases_to!(v@ => v@[i]));
                        assert(decreases_to!(v@[i] => v@[i].value));
                        lemma_full_says(v@[i].value, w@[i].value);
                    }
                    assert(field_views(v@) =~= field_views(w@));
                    assert(said(v@) =~= said(w@));
                },
                _ => {},
            }
        },
        _ => {
            match b {
                Json::Arr(w) => {
                    lemma_full_arr(w);
                },
                Json::Obj(w) => {
                    lemma_full_obj(w);
                },
                _ => {
                    assert(a@ == b@);
                    assert(said(a.entries()) =~= said(b.entries()));
                },
            }
        },
    }
}

/// What some values say.
pub open spec fn json_views(v: Seq<Json>) -> Seq<JsonView> {
    Seq::new(v.len(), |i: int| v[i]@)
}

/// What some entries say.
pub open spec fn field_views(v: Seq<Field>) -> Seq<(Seq<char>, JsonView)> {
    Seq::new(v.len(), |i: int| (v[i].key@, v[i].value@))
}

/// What some entries say, with the text of each value.
pub open spec fn said(v: Seq<Field>) -> Seq<(Seq<char>, JsonView, Seq<char>)> {
    Seq::new(v.len(), |i: int| (v[i].key@, v[i].value@, v[i].text@))
}

/// An array of some values says what they say.
pub proof fn lemma_arr_view(v: Vec<Json>)
    ensures
        Json::Arr(v)@ == JsonView::Arr(json_views(v@)),
{
    let j = Json::Arr(v);
    assert(j@->Arr_0 =~= json_views(v@));
}

/// An object of some entries says what they say.
pub proof fn lemma_obj_view(v: Vec<Field>)
    ensures
        Json::Obj(v)@ == JsonView::Obj(field_views(v@)),
{
    let j = Json::Obj(v);
    assert(j@->Obj_0 =~= field_views(v@));
}

impl JsonView {
    /// The entries of an object; none of any other value.
    pub open spec fn fields(self) -> Seq<(Seq<char>, JsonView)> {
        match self {
            JsonView::Obj(f) => f,
            _ => Seq::empty(),
        }
    }

    /// The value of a key.
    pub open spec fn get(self, key: Seq<char>) -> Option<JsonView> {
        value_at(self.fields(), key)
    }

    /// The value of a key, null if there is none.
    pub open spec fn at(self, key: Seq<char>) -> JsonView {
        match self.get(key) {
            Some(v) => v,
            None => JsonView::Null,
        }
    }

    pub open spec fn text(self) -> Option<Seq<char>> {
        match self {
            JsonView::Str(s) => Some(s),
            _ => None,
        }
    }

    pub open spec fn array(self) -> Option<Seq<JsonView>> {
        match self {
            JsonView::Arr(v) => Some(v),
            _ => None,
        }
    }

    pub open spec fn flag(self) -> Option<bool> {
        match self {
            JsonView::Bool(b) => Some(b),
            _ => None,
        }
    }

    pub open spec fn unsigned(self) -> Option<u64> {
        match self {
            JsonView::Unsigned(n) => Some(n),
            _ => None,
        }
    }

    /// The value as a signed whole number of 64 bits.
    pub open spec fn signed(self) -> Option<i64> {
        match self {
            JsonView::Unsigned(n) => if n <= i64::MAX { Some(n as i64) } else { None },
            JsonView::Negative(n) => Some(n),
            _ => None,
        }
    }
}

/// The texts among some values.
pub open spec fn texts_in(v: Seq<JsonView>) -> Seq<Seq<char>>
    decreases v.len(),
{
    if v.len() == 0 {
        Seq::empty()
    } else {
        let rest = texts_in(v.drop_last());
        match v.last().text() {
            Some(s) => rest.push(s),
            None => rest,
        }
    }
}

/// The texts of an array; none if the value is not an array.
pub open spec fn text_array(v: Option<JsonView>) -> Option<Seq<Seq<char>>> {
    match v {
        Some(j) => match j.array() {
            Some(a) => Some(texts_in(a)),
            None => None,
        },
        None => None,
    }
}

/// An object of a few entries.
pub open spec fn object(f: Seq<(Seq<char>, JsonView)>) -> JsonView {
    JsonView::Obj(f)
}

/// The entry of a key.
pub open spec fn entry_of(f: Seq<Field>, key: Seq<char>) -> Option<Field> {
    let i = key_at(field_views(f), key);
    if 0 <= i < f.len() { Some(f[i]) } else { None }
}

impl Json {
    /// The entry of a key.
    pub fn entry<'a>(&'a self, key: &str) -> (r: Option<&'a Field>)
        ensures
            match r {
                Some(f) => entry_of(self.entries(), key@) == Some(*f) && self@.get(key@) == Some(
                    f.value@,
                ) && f.key@ == key@,
                None => entry_of(self.entries(), key@) is None && self@.get(key@) is None,
            },
    {
        match self {
            Json::Obj(f) => {
                proof {
                    assert(self@->Obj_0 =~= field_views(f@));
                }
                let mut i: usize = 0;
                while i < f.len()
                    invariant
                        i <= f@.len(),
                        self@ == JsonView::Obj(field_views(f@)),
                        self.entries() == f@,
                        forall|j: int| 0 <= j < i ==> (#[trigger] field_views(f@)[j]).0 != key@,
                    decreases f@.len() - i,
                {
                    if same_str(f[i].key.as_str(), key) {
                        proof {
                            lemma_key_at(field_views(f@), key@, i as int);
                        }
                        return Some(&f[i]);
                    }
                    i = i + 1;
                }
                proof {
                    lemma_key_at(field_views(f@), key@, i as int);
                }
                None
            },
            _ => None,
        }
    }

    /// The value of a key.
    pub fn get<'a>(&'a self, key: &str) -> (r: Option<&'a Json>)
        ensures
            match r {
                Some(v) => self@.get(key@) == Some(v@) && entry_of(self.entries(), key@) is Some
                    && entry_of(self.entries(), key@)->0.value == *v,
                None => self@.get(key@) is None && entry_of(self.entries(), key@) is None,
            },
    {
        match self.entry(key) {
            Some(f) => Some(&f.value),
            None => None,
        }
    }

    pub fn as_str<'a>(&'a self) -> (r: Option<&'a String>)
        ensures
            match r {
                Some(s) => self@.text() == Some(s@),
                None => self@.text() is None,
            },
    {
        match self {
            Json::Str(s) => Some(s),
            _ => None,
        }
    }

    pub fn as_array<'a>(&'a self) -> (r: Option<&'a Vec<Json>>)
        ensures
            match r {
                Some(v) => self@.array() == Some(json_views(v@)),
                None => self@.array() is None,
            },
    {
        match self {
            Json::Arr(v) => {
                proof {
                    assert(self@->Arr_0 =~= json_views(v@));
                }
                Some(v)
            },
            _ => None,
        }
    }

    pub fn as_bool(&self) -> (r: Option<bool>)
        ensures
            r == self@.flag(),
    {
        match self {
            Json::Bool(b) => Some(*b),
            _ => None,
        }
    }

    pub fn as_u64(&self) -> (r: Option<u64>)
        ensures
            r == self@.unsigned(),
    {
        match self {
            Json::Unsigned(n) => Some(*n),
            _ => None,
        }
    }

    pub fn as_i64(&self) -> (r: Option<i64>)
        ensures
            r == self@.signed(),
    {
        match self {
            Json::Unsigned(n) => if *n <= 0x7fff_ffff_ffff_ffff {
                Some(*n as i64)
            } else {
                None
            },
            Json::Negative(n) => Some(*n),
            _ => None,
        }
    }

    /// The text of a key's value.
    pub fn text_of<'a>(&'a self, key: &str) -> (r: Option<&'a String>)
        ensures
            match r {
                Some(s) => self@.at(key@).text() == Some(s@),
                None => self@.at(key@).text() is None,
            },
    {
        match self.get(key) {
            Some(v) => v.as_str(),
            None => None,
        }
    }

    /// The whole number of a key's value.
    pub fn u64_of(&self, key: &str) -> (r: Option<u64>)
        ensures
            r == self@.at(key@).unsigned(),
    {
        match self.get(key) {
            Some(v) => v.as_u64(),
            None => None,
        }
    }

    /// The signed whole number of a key's value.
    pub fn i64_of(&self, key: &str) -> (r: Option<i64>)
        ensures
            r == self@.at(key@).signed(),
    {
        match self.get(key) {
            Some(v) => v.as_i64(),
            None => None,
        }
    }

    /// The truth value of a key's value.
    pub fn bool_of(&self, key: &str) -> (r: Option<bool>)
        ensures
            r == self@.at(key@).flag(),
    {
        match self.get(key) {
            Some(v) => v.as_bool(),
            None => None,
        }
    }

    /// The texts in the array that a key holds; none if it holds no array.
    pub fn texts_of(&self, key: &str) -> (r: Option<Vec<String>>)
        ensures
            match r {
                Some(v) => text_array(self@.get(key@)) == Some(string_texts(v@)),
                None => text_array(self@.get(key@)) is None,
            },
    {
        match self.get(key) {
            Some(v) => match v.as_array() {
                Some(a) => Some(collect_texts(a)),
                None => None,
            },
            None => None,
        }
    }

    /// A text.
    pub fn text(s: &str) -> (r: Json)
        ensures
            r@ == JsonView::Str(s@),
    {
        Json::Str(s.to_owned())
    }

    /// A signed whole number.
    pub fn signed(n: i64) -> (r: Json)
        ensures
            r@ == signed_view(n),
    {
        if n < 0 {
            Json::Negative(n)
        } else {
            Json::Unsigned(n as u64)
        }
    }

    /// An array.
    pub fn array(v: Vec<Json>) -> (r: Json)
        ensures
            r@ == JsonView::Arr(json_views(v@)),
    {
        proof {
            lemma_arr_view(v);
        }
        Json::Arr(v)
    }

    /// An array of texts.
    pub fn text_list(v: &Vec<String>) -> (r: Json)
        ensures
            r@ == text_list_view(string_texts(v@)),
    {
        let mut out: Vec<Json> = Vec::new();
        let mut i: usize = 0;
        while i < v.len()
            invariant
                i <= v@.len(),
                out@.len() == i,
                forall|j: int| 0 <= j < i ==> (#[trigger] out@[j])@ == JsonView::Str(v@[j]@),
            decreases v@.len() - i,
        {
            out.push(Json::Str(v[i].clone()));
            i = i + 1;
        }
        assert(json_views(out@) =~= text_list_view(string_texts(v@))->Arr_0);
        Json::array(out)
    }

    /// An object with one text per key.
    pub fn text_table(v: &Vec<(String, String)>) -> (r: Json)
        ensures
            r@ == text_table_view(crate::manifest::pair_texts(v@)),
    {
        let mut out: Vec<Field> = Vec::new();
        let mut i: usize = 0;
        while i < v.len()
            invariant
                i <= v@.len(),
                out@.len() == i,
                forall|j: int|
                    0 <= j < i ==> (#[trigger] out@[j]).key@ == v@[j].0@ && out@[j].value@
                        == JsonView::Str(v@[j].1@),
            decreases v@.len() - i,
        {
            let e = &v[i];
            out.push(
                Field { key: e.0.clone(), value: Json::Str(e.1.clone()), text: String::new() },
            );
            i = i + 1;
        }
        proof {
            lemma_obj_view(out);
            assert(field_views(out@) =~= text_table_view(
                crate::manifest::pair_texts(v@),
            )->Obj_0);
        }
        Json::Obj(out)
    }
}

/// A signed whole number as a value.
pub open spec fn signed_view(n: i64) -> JsonView {
    if n < 0 { JsonView::Negative(n) } else { JsonView::Unsigned(n as u64) }
}

/// An array of texts.
pub open spec fn text_list_view(v: Seq<Seq<char>>) -> JsonView {
    JsonView::Arr(Seq::new(v.len(), |i: int| JsonView::Str(v[i])))
}

/// An object with one text per key.
pub open spec fn text_table_view(v: Seq<(Seq<char>, Seq<char>)>) -> JsonView {
    JsonView::Obj(Seq::new(v.len(), |i: int| (v[i].0, JsonView::Str(v[i].1))))
}

/// A text or null.
pub open spec fn opt_text_view(v: Option<Seq<char>>) -> JsonView {
    match v {
        Some(s) => JsonView::Str(s),
        None => JsonView::Null,
    }
}

/// A text or null.
pub fn opt_text(v: &Option<String>) -> (r: Json)
    ensures
        match v {
            Some(s) => r@ == JsonView::Str(s@),
            None => r@ == JsonView::Null,
        },
{
    match v {
        Some(s) => Json::Str(s.clone()),
        None => Json::Null,
    }
}

/// The texts among some values.
pub fn collect_texts(v: &Vec<Json>) -> (r: Vec<String>)
    ensures
        string_texts(r@) == texts_in(json_views(v@)),
{
    let mut out: Vec<String> = Vec::new();
    let mut i: usize = 0;
    assert(json_views(v@).take(0) =~= Seq::<JsonView>::empty());
    assert(string_texts(out@) =~= Seq::<Seq<char>>::empty());
    while i < v.len()
        invariant
            i <= v@.len(),
            string_texts(out@) == texts_in(json_views(v@).take(i as int)),
        decreases v@.len() - i,
    {
        let ghost before = out@;
        proof {
            assert(json_views(v@).take(i + 1).drop_last() =~= json_views(v@).take(i as int));
            assert(json_views(v@).take(i + 1).last() == v@[i as int]@);
        }
        match v[i].as_str() {
            Some(s) => {
                out.push(s.clone());
                assert(string_texts(out@) =~= string_texts(before).push(s@));
            },
            None => {},
        }
        i = i + 1;
    }
    assert(json_views(v@).take(i as int) =~= json_views(v@));
    out
}

/// A copy of an entry.
pub fn copy_field(f: &Field) -> (r: Field)
    ensures
        r.key@ == f.key@,
        r.value@ == f.value@,
        r.text@ == f.text@,
{
    Field { key: f.key.clone(), value: copy_json(&f.value), text: f.text.clone() }
}

/// A copy of a value.
pub fn copy_json(j: &Json) -> (r: Json)
    ensures
        r@ == j@,
        said(r.entries()) == said(j.entries()),
        r.full() == j.full(),
    decreases j,
{
    match j {
        Json::Null => Json::Null,
        Json::Bool(b) => Json::Bool(*b),
        Json::Unsigned(n) => Json::Unsigned(*n),
        Json::Negative(n) => Json::Negative(*n),
        Json::Float(t) => Json::Float(t.clone()),
        Json::Quotient { num, den } => Json::Quotient { num: *num, den: *den },
        Json::QuotientText { num, den } => Json::QuotientText { num: *num, den: *den },
        Json::Str(s) => Json::Str(s.clone()),
        Json::Arr(v) => {
            let mut out: Vec<Json> = Vec::new();
            let mut i: usize = 0;
            while i < v.len()
                invariant
                    i <= v@.len(),
                    out@.len() == i,
                    j == Json::Arr(*v),
                    forall|k: int|
                        0 <= k < i ==> (#[trigger] out@[k])@ == v@[k]@ && out@[k].full() == v@[k].full(),
                decreases v@.len() - i,
            {
                proof {
                    assert(decreases_to!(*j => j->Arr_0));
                    assert(decreases_to!(*v => v@));
                    assert(decreases_to!(v@ => v@[i as int]));
                }
                out.push(copy_json(&v[i]));
                i = i + 1;
            }
            proof {
                lemma_arr_view(out);
                lemma_arr_view(*v);
                assert(json_views(out@) =~= json_views(v@));
                lemma_full_arr(out);
                lemma_full_arr(*v);
                assert(fulls(out@) =~= fulls(v@));
            }
            Json::Arr(out)
        },
        Json::Obj(f) => {
            let mut out: Vec<Field> = Vec::new();
            let mut i: usize = 0;
            while i < f.len()
                invariant
                    i <= f@.len(),
                    out@.len() == i,
                    j == Json::Obj(*f),
                    forall|k: int|
                        0 <= k < i ==> (#[trigger] out@[k]).key@ == f@[k].key@ && out@[k].value@
                            == f@[k].value@ && out@[k].text@ == f@[k].text@ && out@[k].value.full()
                            == f@[k].value.full(),
                decreases f@.len() - i,
            {
                let e = &f[i];
                proof {
                    assert(decreases_to!(*j => j->Obj_0));
                    assert(decreases_to!(*f => f@));
                    assert(decreases_to!(f@ => f@[i as int]));
                    assert(decreases_to!(f@[i as int] => f@[i as int].value));
                }
                out.push(
                    Field { key: e.key.clone(), value: copy_json(&e.value), text: e.text.clone() },
                );
                i = i + 1;
            }
            proof {
                lemma_obj_view(out);
                lemma_obj_view(*f);
                assert(field_views(out@) =~= field_views(f@));
                assert(said(out@) =~= said(f@));
                lemma_full_obj(out);
                lemma_full_obj(*f);
                assert(full_fields(out@) =~= full_fields(f@));
            }
            Json::Obj(out)
        },
    }
}

/// An object under construction.
pub struct ObjectBuilder {
    pub fields: Vec<Field>,
}

impl ObjectBuilder {
    pub open spec fn view(&self) -> Seq<(Seq<char>, JsonView)> {
        field_views(self.fields@)
    }

    pub fn new() -> (r: Self)
        ensures
            r@ == Seq::<(Seq<char>, JsonView)>::empty(),
    {
        let r = ObjectBuilder { fields: Vec::new() };
        assert(r@ =~= Seq::<(Seq<char>, JsonView)>::empty());
        r
    }

    /// Starts with one text per key.
    pub fn from_table(v: &Vec<(String, String)>) -> (r: Self)
        ensures
            r@ == text_table_view(crate::manifest::pair_texts(v@)).fields(),
    {
        match Json::text_table(v) {
            Json::Obj(fields) => {
                proof {
                    lemma_obj_view(fields);
                }
                ObjectBuilder { fields }
            },
            _ => {
                assert(false);
                ObjectBuilder { fields: Vec::new() }
            },
        }
    }

    /// Appends an entry.
    pub fn put(&mut self, key: &str, value: Json)
        ensures
            final(self)@ == old(self)@.push((key@, value@)),
    {
        let ghost before = self@;
        self.fields.push(Field { key: key.to_owned(), value, text: String::new() });
        assert(self@ =~= before.push((key@, value@)));
    }

    /// Sets the value of a key.
    pub fn set(&mut self, key: &str, value: Json)
        ensures
            final(self)@ == with_value(old(self)@, key@, value@),
    {
        let ghost before = self@;
        let n: usize = self.fields.len();
        let mut i: usize = 0;
        while i < n
            invariant
                i <= n,
                n == self.fields@.len(),
                self@ == before,
                before == old(self)@,
                forall|j: int| 0 <= j < i ==> (#[trigger] before[j]).0 != key@,
            decreases n - i,
        {
            if same_str(self.fields[i].key.as_str(), key) {
                proof {
                    assert(before[i as int].0 == key@);
                    lemma_key_at(before, key@, i as int);
                }
                self.fields.set(i, Field { key: key.to_owned(), value, text: String::new() });
                assert(self@ =~= before.update(i as int, (key@, value@)));
                return;
            }
            assert(before[i as int].0 != key@);
            i = i + 1;
        }
        proof {
            lemma_key_at(before, key@, i as int);
        }
        self.fields.push(Field { key: key.to_owned(), value, text: String::new() });
        assert(self@ =~= before.push((key@, value@)));
    }

    pub fn done(self) -> (r: Json)
        ensures
            r@ == JsonView::Obj(self@),
    {
        proof {
            lemma_obj_view(self.fields);
        }
        Json::Obj(self.fields)
    }
}

/// The entries whose key is wanted, in order.
pub open spec fn picked(f: Seq<(Seq<char>, JsonView)>, keys: Seq<Seq<char>>) -> Seq<(Seq<char>, JsonView)>
    decreases f.len(),
{
    if f.len() == 0 {
        f
    } else {
        let rest = picked(f.drop_last(), keys);
        if keys.contains(f.last().0) { rest.push(f.last()) } else { rest }
    }
}

/// A value cut down to the wanted keys; whole if none are named.
pub open spec fn filtered(v: JsonView, keys: Option<Seq<Seq<char>>>) -> JsonView {
    match keys {
        None => v,
        Some(ks) => JsonView::Obj(picked(v.fields(), ks)),
    }
}

/// The views of optional texts.
pub open spec fn opt_texts(keys: Option<&Vec<String>>) -> Option<Seq<Seq<char>>> {
    match keys {
        None => None,
        Some(k) => Some(string_texts(k@)),
    }
}

/// Cuts a value down to the wanted keys. Without a list of keys it stays whole.
pub fn filter_keys(v: Json, keys: Option<&Vec<String>>) -> (r: Json)
    ensures
        r@ == filtered(v@, opt_texts(keys)),
{
    match keys {
        None => v,
        Some(ks) => {
            let mut out: Vec<Field> = Vec::new();
            assert(field_views(out@) =~= Seq::<(Seq<char>, JsonView)>::empty());
            match v {
                Json::Obj(f) => {
                    let ghost all = field_views(f@);
                    proof {
                        lemma_obj_view(f);
                    }
                    let mut i: usize = 0;
                    assert(all.take(0) =~= Seq::<(Seq<char>, JsonView)>::empty());
                    while i < f.len()
                        invariant
                            i <= f@.len(),
                            all == field_views(f@),
                            field_views(out@) == picked(all.take(i as int), string_texts(ks@)),
                        decreases f@.len() - i,
                    {
                        let ghost before = out@;
                        let e = &f[i];
                        proof {
                            assert(all.take(i + 1).drop_last() =~= all.take(i as int));
                            assert(all.take(i + 1).last() == all[i as int]);
                        }
                        if holds(ks, e.key.as_str()) {
                            out.push(
                                Field {
                                    key: e.key.clone(),
                                    value: copy_json(&e.value),
                                    text: e.text.clone(),
                                },
                            );
                            assert(field_views(out@) =~= field_views(before).push(all[i as int]));
                        }
                        i = i + 1;
                    }
                    assert(all.take(i as int) =~= all);
                },
                _ => {
                    proof {
                        assert(v@.fields() =~= Seq::<(Seq<char>, JsonView)>::empty());
                    }
                },
            }
            proof {
                lemma_obj_view(out);
            }
            Json::Obj(out)
        },
    }
}

/// The kept entries are those whose key is wanted, and nothing else.
pub proof fn law_filter_keeps_wanted(v: JsonView, keys: Seq<Seq<char>>, e: (Seq<char>, JsonView))
    ensures
        filtered(v, Some(keys)).fields().contains(e) <==> v.fields().contains(e) && keys.contains(e.0),
{
    lemma_picked(v.fields(), keys, e);
}

proof fn lemma_picked(f: Seq<(Seq<char>, JsonView)>, keys: Seq<Seq<char>>, e: (Seq<char>, JsonView))
    ensures
        picked(f, keys).contains(e) <==> f.contains(e) && keys.contains(e.0),
    decreases f.len(),
{
    if f.len() > 0 {
        let front = f.drop_last();
        lemma_picked(front, keys, e);
        let rest = picked(front, keys);
        let all = picked(f, keys);
        assert(f.contains(e) <==> front.contains(e) || e == f.last()) by {
            if f.contains(e) {
                let k = choose|k: int| 0 <= k < f.len() && f[k] == e;
                if k < front.len() {
                    assert(front[k] == e);
                }
            }
            if front.contains(e) {
                let k = choose|k: int| 0 <= k < front.len() && front[k] == e;
                assert(f[k] == e);
            }
            assert(f[f.len() - 1] == f.last());
        }
        if keys.contains(f.last().0) {
            assert(all.contains(e) <==> rest.contains(e) || e == f.last()) by {
                if all.contains(e) {
                    let k = choose|k: int| 0 <= k < all.len() && all[k] == e;
                    if k < rest.len() {
                        assert(rest[k] == e);
                    }
                }
                if rest.contains(e) {
                    let k = choose|k: int| 0 <= k < rest.len() && rest[k] == e;
                    assert(all[k] == e);
                }
                assert(all[all.len() - 1] == f.last());
            }
        }
    }
}

/// The texts of an array are those of its values that are texts, in their order: those
/// of one part, then those of the other.
pub proof fn law_texts_keep_their_order(a: Seq<JsonView>, b: Seq<JsonView>, x: JsonView)
    ensures
        texts_in(a + b) == texts_in(a) + texts_in(b),
        texts_in(seq![x]) == match x {
            JsonView::Str(s) => seq![s],
            _ => Seq::<Seq<char>>::empty(),
        },
    decreases b.len(),
{
    reveal_with_fuel(texts_in, 2);
    assert(seq![x].drop_last() =~= Seq::<JsonView>::empty());
    match x {
        JsonView::Str(s) => {
            assert(texts_in(seq![x]) =~= seq![s]);
        },
        _ => {},
    }
    if b.len() == 0 {
        assert(a + b =~= a);
        assert(texts_in(a) + texts_in(b) =~= texts_in(a));
    } else {
        law_texts_keep_their_order(a, b.drop_last(), x);
        assert((a + b).drop_last() =~= a + b.drop_last());
        assert((a + b).last() == b.last());
        assert(texts_in(a + b) =~= texts_in(a) + texts_in(b));
    }
}

/// What is left of an object for some keys is what is left of one part, then of the
/// other, and an entry is left if and only if its key is wanted.
pub proof fn law_wanted_entries_keep_their_order(
    a: Seq<(Seq<char>, JsonView)>,
    b: Seq<(Seq<char>, JsonView)>,
    e: (Seq<char>, JsonView),
    keys: Seq<Seq<char>>,
)
    ensures
        picked(a + b, keys) == picked(a, keys) + picked(b, keys),
        picked(seq![e], keys) == if keys.contains(e.0) {
            seq![e]
        } else {
            Seq::empty()
        },
    decreases b.len(),
{
    reveal_with_fuel(picked, 2);
    assert(seq![e].drop_last() =~= Seq::<(Seq<char>, JsonView)>::empty());
    assert(picked(seq![e], keys) =~= if keys.contains(e.0) { seq![e] } else { Seq::empty() });
    if b.len() == 0 {
        assert(a + b =~= a);
        assert(picked(a, keys) + picked(b, keys) =~= picked(a, keys));
    } else {
        law_wanted_entries_keep_their_order(a, b.drop_last(), e, keys);
        assert((a + b).drop_last() =~= a + b.drop_last());
        assert((a + b).last() == b.last());
        assert(picked(a + b, keys) =~= picked(a, keys) + picked(b, keys));
    }
}

/// A list of texts is read back as it was written, and so is a table of texts whose
/// keys differ.
pub proof fn law_texts_are_read_back(v: Seq<Seq<char>>, t: Seq<(Seq<char>, Seq<char>)>, i: int)
    requires
        crate::lists::unique_keys(t),
        0 <= i < t.len(),
    ensures
        text_array(Some(text_list_view(v))) == Some(v),
        text_table_view(t).at(t[i].0).text() == Some(t[i].1),
    decreases v.len(),
{
    let a = Seq::new(v.len(), |k: int| JsonView::Str(v[k]));
    if v.len() > 0 {
        law_texts_are_read_back(v.drop_last(), t, i);
        assert(a.drop_last() =~= Seq::new(
            v.drop_last().len(),
            |k: int| JsonView::Str(v.drop_last()[k]),
        ));
        assert(texts_in(a) =~= v);
    } else {
        assert(texts_in(a) =~= v);
    }
    let f = text_table_view(t).fields();
    assert forall|j: int| 0 <= j < i implies (#[trigger] f[j]).0 != t[i].0 by {
        assert(f[j].0 == t[j].0);
    }
    crate::lists::lemma_key_at(f, t[i].0, i);
}

} // verus!
