//! JSON values: building, reading, parsing and printing.
use vstd::prelude::*;
use crate::table::ascending;
use crate::text::{
    precedes, same, text_lt, text_lt_irreflexive, text_lt_total, text_lt_transitive,
};

verus! {

/// `serde_json::Value`, read only through the items below.
#[verifier::external_type_specification]
#[verifier::external_body]
pub struct ExValue(serde_json::Value);

/// `serde_json::Number`, carried along where a number is not an integer.
#[verifier::external_type_specification]
#[verifier::external_body]
pub struct ExNumber(serde_json::Number);

/// A number that is not an integer. Only reading a `serde_json::Value` makes one.
pub struct Fraction {
    number: serde_json::Number,
}

impl Fraction {
    /// The number.
    pub closed spec fn held(&self) -> serde_json::Number {
        self.number
    }

    /// The number.
    pub fn number(&self) -> (r: &serde_json::Number)
        ensures
            *r == self.held(),
    {
        &self.number
    }

    fn copy(&self) -> (r: Fraction)
        ensures
            r.held() == self.held(),
    {
        Fraction { number: self.number.clone() }
    }
}

/// A JSON value.
pub enum Json {
    Null,
    Bool(bool),
    Uint(u64),
    Int(i64),
    Float(Fraction),
    Str(String),
    Arr(Vec<Json>),
    Obj(Vec<(String, Json)>),
}

/// What a JSON value holds. The entries of an object stand in the order of
/// their keys.
pub enum JsonView {
    Null,
    Bool(bool),
    Int(int),
    Float(serde_json::Number),
    Str(Seq<char>),
    Arr(Seq<JsonView>),
    Obj(Seq<(Seq<char>, JsonView)>),
}

impl Json {
    /// What the value holds.
    pub open spec fn model(&self) -> JsonView
        decreases self,
    {
        match self {
            Json::Null => JsonView::Null,
            Json::Bool(b) => JsonView::Bool(*b),
            Json::Uint(n) => JsonView::Int(*n as int),
            Json::Int(n) => JsonView::Int(*n as int),
            Json::Float(n) => JsonView::Float(n.held()),
            Json::Str(s) => JsonView::Str(s@),
            Json::Arr(a) => JsonView::Arr(
                Seq::new(
                    a@.len(),
                    |i: int|
                        if 0 <= i < a@.len() {
                            a@[i].model()
                        } else {
                            JsonView::Null
                        },
                ),
            ),
            Json::Obj(e) => JsonView::Obj(entry_views(e@)),
        }
    }
}

impl View for Json {
    type V = JsonView;

    open spec fn view(&self) -> JsonView {
        self.model()
    }
}

/// The value under the key `k`, if the entries hold one.
pub open spec fn lookup(e: Seq<(Seq<char>, JsonView)>, k: Seq<char>) -> Option<JsonView>
    decreases e.len(),
{
    if e.len() == 0 {
        None
    } else if e[0].0 == k {
        Some(e[0].1)
    } else {
        lookup(e.skip(1), k)
    }
}

/// The entries with `v` under the key `k`: in place of what stood there, else
/// before the first greater key.
pub open spec fn put_entry(
    e: Seq<(Seq<char>, JsonView)>,
    k: Seq<char>,
    v: JsonView,
) -> Seq<(Seq<char>, JsonView)>
    decreases e.len(),
{
    if e.len() == 0 {
        seq![(k, v)]
    } else if e[0].0 == k {
        seq![(k, v)] + e.skip(1)
    } else if text_lt(k, e[0].0) {
        seq![(k, v)] + e
    } else {
        seq![e[0]] + put_entry(e.skip(1), k, v)
    }
}

/// The values of a sequence.
pub open spec fn views(a: Seq<Json>) -> Seq<JsonView> {
    a.map_values(|j: Json| j@)
}

/// The keys and values of a sequence of entries.
pub open spec fn entry_views(e: Seq<(String, Json)>) -> Seq<(Seq<char>, JsonView)>
    decreases e,
{
    if e.len() == 0 {
        seq![]
    } else {
        entry_views(e.drop_last()).push((e.last().0@, e.last().1.model()))
    }
}

/// Each entry is taken by its key and its value.
pub proof fn entry_views_by_index(e: Seq<(String, Json)>)
    ensures
        entry_views(e).len() == e.len(),
        forall|i: int|
            0 <= i < e.len() ==> #[trigger] entry_views(e)[i] == (e[i].0@, e[i].1@),
    decreases e.len(),
{
    if e.len() > 0 {
        entry_views_by_index(e.drop_last());
    }
}

/// The texts among some values.
pub open spec fn texts_in(a: Seq<JsonView>) -> Seq<Seq<char>>
    decreases a.len(),
{
    if a.len() == 0 {
        seq![]
    } else {
        match a.last() {
            JsonView::Str(s) => texts_in(a.drop_last()).push(s),
            _ => texts_in(a.drop_last()),
        }
    }
}

/// A text, or the empty text of any other value.
pub open spec fn text_of(v: JsonView) -> Seq<char> {
    match v {
        JsonView::Str(s) => s,
        _ => seq![],
    }
}

impl JsonView {
    /// The object without entries.
    pub open spec fn object() -> JsonView {
        JsonView::Obj(seq![])
    }

    /// The entries of an object, and none of any other value.
    pub open spec fn entries(self) -> Seq<(Seq<char>, JsonView)> {
        match self {
            JsonView::Obj(e) => e,
            _ => seq![],
        }
    }

    /// The object with `v` under the key `k`.
    pub open spec fn put(self, k: Seq<char>, v: JsonView) -> JsonView {
        JsonView::Obj(put_entry(self.entries(), k, v))
    }

    /// The value of an object under the key `k`.
    pub open spec fn get(self, k: Seq<char>) -> Option<JsonView> {
        lookup(self.entries(), k)
    }

    /// The value of an object under the key `k`, or null.
    pub open spec fn at(self, k: Seq<char>) -> JsonView {
        match self.get(k) {
            Some(v) => v,
            None => JsonView::Null,
        }
    }

    /// The text under the key `k`, if a text stands there.
    pub open spec fn text(self, k: Seq<char>) -> Option<Seq<char>> {
        match self.at(k) {
            JsonView::Str(s) => Some(s),
            _ => None,
        }
    }

    /// The text under the key `k`, or `d`.
    pub open spec fn text_or(self, k: Seq<char>, d: Seq<char>) -> Seq<char> {
        match self.at(k) {
            JsonView::Str(s) => s,
            _ => d,
        }
    }

    /// The elements of the array under the key `k`, if an array stands there.
    pub open spec fn items(self, k: Seq<char>) -> Option<Seq<JsonView>> {
        match self.at(k) {
            JsonView::Arr(a) => Some(a),
            _ => None,
        }
    }

    /// The texts in the array under the key `k`; none where no array stands there.
    pub open spec fn text_items(self, k: Seq<char>) -> Seq<Seq<char>> {
        match self.at(k) {
            JsonView::Arr(a) => texts_in(a),
            _ => seq![],
        }
    }

    /// The unsigned number under the key `k`, if one stands there.
    pub open spec fn uint(self, k: Seq<char>) -> Option<int> {
        match self.at(k) {
            JsonView::Int(n) if 0 <= n <= u64::MAX => Some(n),
            _ => None,
        }
    }

    /// Whether `true` stands under the key `k`.
    pub open spec fn flag(self, k: Seq<char>) -> bool {
        self.at(k) == JsonView::Bool(true)
    }

    /// The value holds integers, texts, truth values and nulls only, in at most
    /// `depth` levels of arrays and objects.
    pub open spec fn simple(self, depth: nat) -> bool
        decreases self,
    {
        match self {
            JsonView::Float(_) => false,
            JsonView::Arr(a) => depth > 0 && forall|i: int|
                0 <= i < a.len() ==> (#[trigger] a[i]).simple((depth - 1) as nat),
            JsonView::Obj(e) => depth > 0 && forall|i: int|
                0 <= i < e.len() ==> (#[trigger] e[i]).1.simple((depth - 1) as nat),
            _ => true,
        }
    }

    /// The entries of each object stand in the order of their keys, each key once.
    pub open spec fn orderly(self) -> bool
        decreases self,
    {
        match self {
            JsonView::Arr(a) => forall|i: int| 0 <= i < a.len() ==> (#[trigger] a[i]).orderly(),
            JsonView::Obj(e) => ascending(e) && forall|i: int|
                0 <= i < e.len() ==> (#[trigger] e[i]).1.orderly(),
            _ => true,
        }
    }

    /// The value with the entries of each object in the order of their keys, the
    /// last one under each key.
    pub open spec fn canon(self) -> JsonView
        decreases self,
    {
        match self {
            JsonView::Arr(a) => JsonView::Arr(
                Seq::new(
                    a.len(),
                    |i: int|
                        if 0 <= i < a.len() {
                            a[i].canon()
                        } else {
                            JsonView::Null
                        },
                ),
            ),
            JsonView::Obj(e) => JsonView::Obj(canon_entries(e)),
            _ => self,
        }
    }
}

/// The entries in the order of their keys, the last one under each key.
pub open spec fn canon_entries(e: Seq<(Seq<char>, JsonView)>) -> Seq<(Seq<char>, JsonView)>
    decreases e,
{
    if e.len() == 0 {
        seq![]
    } else {
        put_entry(canon_entries(e.drop_last()), e.last().0, e.last().1.canon())
    }
}

// ---------------------------------------------------------------- serde_json

/// What a `serde_json::Value` holds.
pub uninterp spec fn value_contents(v: serde_json::Value) -> JsonView;

/// What `serde_json::from_str` reads in a text: the value, or the message of
/// its error.
pub uninterp spec fn json_parsed(text: Seq<char>) -> Result<JsonView, Seq<char>>;

/// The compact text of a value, as `serde_json::Value` displays itself.
pub uninterp spec fn json_text(v: JsonView) -> Seq<char>;

/// The text of a value over several lines, as `serde_json::to_string_pretty`
/// writes it.
pub uninterp spec fn json_pretty(v: JsonView) -> Seq<char>;

/// The text is read as the value `v`.
pub open spec fn reads_as(text: Seq<char>, v: JsonView) -> bool {
    json_parsed(text) == Ok::<JsonView, Seq<char>>(v)
}

/// The text is refused with the message `m`.
pub open spec fn refused(text: Seq<char>, m: Seq<char>) -> bool {
    json_parsed(text) == Err::<JsonView, Seq<char>>(m)
}

/// The nesting that `serde_json` accepts when it reads.
pub open spec fn max_depth() -> nat {
    127
}

/// `serde_json::from_str` into a `serde_json::Value`; an error is given by the
/// message that it displays.
#[verifier::external_body]
fn serde_from_str(text: &str) -> (r: Result<serde_json::Value, String>)
    ensures
        match r {
            Ok(v) => json_parsed(text@) == Ok::<JsonView, Seq<char>>(value_contents(v)),
            Err(e) => json_parsed(text@) == Err::<JsonView, Seq<char>>(e@),
        },
{
    serde_json::from_str::<serde_json::Value>(text).map_err(|e| e.to_string())
}

/// A `serde_json::Value` taken apart into a [`Json`], variant by variant: an object
/// in the order of its keys, which is that of the tree map that holds it.
#[verifier::external_body]
fn from_value(v: serde_json::Value) -> (r: Json)
    ensures
        r@ == value_contents(v),
        r@.orderly(),
{
    match v {
        serde_json::Value::Null => Json::Null,
        serde_json::Value::Bool(b) => Json::Bool(b),
        serde_json::Value::Number(n) => match (n.as_u64(), n.as_i64()) {
            (Some(u), _) => Json::Uint(u),
            (None, Some(i)) => Json::Int(i),
            (None, None) => Json::Float(Fraction { number: n }),
        },
        serde_json::Value::String(s) => Json::Str(s),
        serde_json::Value::Array(a) => Json::Arr(a.into_iter().map(from_value).collect()),
        serde_json::Value::Object(o) => Json::Obj(o.into_iter().map(|(k, x)| (k, from_value(x))).collect()),
    }
}

/// A [`Json`] put together as a `serde_json::Value`, variant by variant. The map of
/// an object orders its keys and keeps the last value of each. The number of a
/// [`Fraction`] is never one that an integer holds.
#[verifier::external_body]
fn into_value(j: &Json) -> (r: serde_json::Value)
    ensures
        value_contents(r) == j@.canon(),
{
    match j {
        Json::Null => serde_json::Value::Null,
        Json::Bool(b) => serde_json::Value::Bool(*b),
        Json::Uint(n) => serde_json::Value::from(*n),
        Json::Int(n) => serde_json::Value::from(*n),
        Json::Float(n) => serde_json::Value::Number(n.number.clone()),
        Json::Str(s) => serde_json::Value::String(s.clone()),
        Json::Arr(a) => serde_json::Value::Array(a.iter().map(into_value).collect()),
        Json::Obj(e) => serde_json::Value::Object(e.iter().map(|(k, x)| (k.clone(), into_value(x))).collect()),
    }
}

/// `serde_json::Value::to_string`: the compact text of the value. What it writes
/// of a value without fractions, nested no deeper than the reader accepts, reads
/// back as that value.
#[verifier::external_body]
fn value_to_string(v: &serde_json::Value) -> (r: String)
    ensures
        r@ == json_text(value_contents(*v)),
        value_contents(*v).simple(max_depth()) ==> reads_as(r@, value_contents(*v)),
{
    v.to_string()
}

/// `serde_json::to_string_pretty`: the text of the value over several lines. It
/// reads back as the compact text does, also with a line feed behind it.
#[verifier::external_body]
fn value_to_pretty(v: &serde_json::Value) -> (r: String)
    ensures
        r@ == json_pretty(value_contents(*v)),
        value_contents(*v).simple(max_depth()) ==> reads_as(r@, value_contents(*v)) && reads_as(
            r@.push('\n'),
            value_contents(*v),
        ),
{
    serde_json::to_string_pretty(v).unwrap_or_default()
}

/// `Number::clone` gives the same number.
pub assume_specification[ <serde_json::Number as Clone>::clone ](n: &serde_json::Number) -> (r:
    serde_json::Number)
    ensures
        r == *n,
;

/// The value that a text holds, or what is wrong with the text.
pub fn parse(text: &str) -> (r: Result<Json, String>)
    ensures
        match r {
            Ok(j) => reads_as(text@, j@) && j@.orderly(),
            Err(e) => refused(text@, e@),
        },
{
    match serde_from_str(text) {
        Ok(v) => Ok(from_value(v)),
        Err(e) => Err(e),
    }
}

/// The compact text of a value.
pub fn compact(j: &Json) -> (r: String)
    ensures
        r@ == json_text(j@.canon()),
        j@.orderly() ==> r@ == json_text(j@),
        j@.orderly() && j@.simple(max_depth()) ==> reads_as(r@, j@),
{
    proof {
        if j@.orderly() {
            canon_keeps_orderly(j@);
        }
    }
    let v = into_value(j);
    value_to_string(&v)
}

/// The text of a value over several lines.
pub fn pretty(j: &Json) -> (r: String)
    ensures
        r@ == json_pretty(j@.canon()),
        j@.orderly() ==> r@ == json_pretty(j@),
        j@.orderly() && j@.simple(max_depth()) ==> reads_as(r@, j@) && reads_as(r@.push('\n'), j@),
{
    proof {
        if j@.orderly() {
            canon_keeps_orderly(j@);
        }
    }
    let v = into_value(j);
    value_to_pretty(&v)
}

// ---------------------------------------------------------------- reading

impl Json {
    /// The object without entries.
    pub fn object() -> (r: Json)
        ensures
            r@ == JsonView::object(),
    {
        let e: Vec<(String, Json)> = Vec::new();
        proof {
            entry_views_by_index(e@);
        }
        let r = Json::Obj(e);
        assert(r@->Obj_0 =~= seq![]);
        r
    }

    /// The text `s`.
    pub fn text(s: &str) -> (r: Json)
        ensures
            r@ == JsonView::Str(s@),
    {
        Json::Str(s.to_owned())
    }

    /// The array of some texts.
    pub fn text_array(v: &Vec<String>) -> (r: Json)
        ensures
            r@ == JsonView::Arr(v@.map_values(|s: String| JsonView::Str(s@))),
    {
        let mut a: Vec<Json> = Vec::new();
        let mut i: usize = 0;
        while i < v.len()
            invariant
                i <= v@.len(),
                a@.len() == i,
                forall|j: int| 0 <= j < i ==> (#[trigger] a@[j])@ == JsonView::Str(v@[j]@),
            decreases v@.len() - i,
        {
            a.push(Json::text(v[i].as_str()));
            i += 1;
        }
        let r = Json::Arr(a);
        assert(r@->Arr_0 =~= v@.map_values(|s: String| JsonView::Str(s@)));
        r
    }

    /// The array of some values.
    pub fn array(v: Vec<Json>) -> (r: Json)
        ensures
            r@ == JsonView::Arr(views(v@)),
    {
        let ghost g = v@;
        let r = Json::Arr(v);
        assert(r@->Arr_0 =~= views(g));
        r
    }

    /// A copy of the value.
    pub fn copy(&self) -> (r: Json)
        ensures
            r@ == self@,
        decreases self,
    {
        match self {
            Json::Null => Json::Null,
            Json::Bool(b) => Json::Bool(*b),
            Json::Uint(n) => Json::Uint(*n),
            Json::Int(n) => Json::Int(*n),
            Json::Float(n) => Json::Float(n.copy()),
            Json::Str(s) => Json::Str(s.clone()),
            Json::Arr(a) => {
                let mut out: Vec<Json> = Vec::new();
                let mut i: usize = 0;
                while i < a.len()
                    invariant
                        i <= a@.len(),
                        out@.len() == i,
                        *self == Json::Arr(*a),
                        decreases_to!(self => a@),
                        forall|j: int| 0 <= j < i ==> (#[trigger] out@[j])@ == a@[j]@,
                    decreases a@.len() - i,
                {
                    let x = a[i].copy();
                    out.push(x);
                    i += 1;
                }
                let r = Json::Arr(out);
                assert(r@->Arr_0 =~= self@->Arr_0);
                r
            },
            Json::Obj(e) => {
                let mut out: Vec<(String, Json)> = Vec::new();
                let mut i: usize = 0;
                while i < e.len()
                    invariant
                        i <= e@.len(),
                        out@.len() == i,
                        *self == Json::Obj(*e),
                        decreases_to!(self => e@),
                        forall|j: int|
                            0 <= j < i ==> (#[trigger] out@[j]).0@ == e@[j].0@ && out@[j].1@
                                == e@[j].1@,
                    decreases e@.len() - i,
                {
                    let x = e[i].1.copy();
                    out.push((e[i].0.clone(), x));
                    i += 1;
                }
                let ghost out_g = out@;
                let r = Json::Obj(out);
                proof {
                    entry_views_by_index(out_g);
                    entry_views_by_index(e@);
                    assert(r@->Obj_0 =~= self@->Obj_0);
                }
                r
            },
        }
    }

    /// The value of an object under the key `k`.
    pub fn get(&self, k: &str) -> (r: Option<&Json>)
        ensures
            match r {
                Some(j) => self@.get(k@) == Some(j@),
                None => self@.get(k@) is None,
            },
    {
        match self {
            Json::Obj(e) => {
                let mut i: usize = 0;
                let ghost w = self@->Obj_0;
                proof {
                    entry_views_by_index(e@);
                }
                assert(w.skip(0) =~= w);
                while i < e.len()
                    invariant
                        i <= e@.len(),
                        w.len() == e@.len(),
                        forall|j: int|
                            0 <= j < e@.len() ==> #[trigger] w[j] == (e@[j].0@, e@[j].1@),
                        lookup(w, k@) == lookup(w.skip(i as int), k@),
                        self@ == JsonView::Obj(w),
                    decreases e@.len() - i,
                {
                    assert(w.skip(i as int)[0] == w[i as int]);
                    if same(e[i].0.as_str(), k) {
                        return Some(&e[i].1);
                    }
                    assert(w.skip(i as int).skip(1) =~= w.skip(i + 1));
                    i += 1;
                }
                None
            },
            _ => None,
        }
    }

    /// A copy of the value under the key `k`, or null.
    pub fn at(&self, k: &str) -> (r: Json)
        ensures
            r@ == self@.at(k@),
    {
        match self.get(k) {
            Some(j) => j.copy(),
            None => Json::Null,
        }
    }

    /// The text under the key `k`, if a text stands there.
    pub fn text_at(&self, k: &str) -> (r: Option<String>)
        ensures
            match r {
                Some(s) => self@.text(k@) == Some(s@),
                None => self@.text(k@) is None,
            },
    {
        match self.get(k) {
            Some(Json::Str(s)) => Some(s.clone()),
            _ => None,
        }
    }

    /// The text under the key `k`, or `d`.
    pub fn text_or(&self, k: &str, d: &str) -> (r: String)
        ensures
            r@ == self@.text_or(k@, d@),
    {
        match self.get(k) {
            Some(Json::Str(s)) => s.clone(),
            _ => d.to_owned(),
        }
    }

    /// The elements of the array under the key `k`, if an array stands there.
    pub fn items(&self, k: &str) -> (r: Option<&Vec<Json>>)
        ensures
            match r {
                Some(a) => self@.items(k@) == Some(views(a@)),
                None => self@.items(k@) is None,
            },
    {
        match self.get(k) {
            Some(Json::Arr(a)) => {
                assert(Json::Arr(*a)@->Arr_0 =~= views(a@));
                Some(a)
            },
            _ => None,
        }
    }

    /// The entries of the object under the key `k`, if an object stands there.
    pub fn entries_at(&self, k: &str) -> (r: Option<&Vec<(String, Json)>>)
        ensures
            match r {
                Some(e) => self@.at(k@) == JsonView::Obj(entry_views(e@)),
                None => !(self@.at(k@) is Obj),
            },
    {
        match self.get(k) {
            Some(Json::Obj(e)) => {
                Some(e)
            },
            _ => None,
        }
    }

    /// The texts in the array under the key `k`.
    pub fn text_items(&self, k: &str) -> (r: Vec<String>)
        ensures
            crate::text::texts(r@) == self@.text_items(k@),
    {
        let mut out: Vec<String> = Vec::new();
        match self.items(k) {
            Some(a) => {
                let mut i: usize = 0;
                assert(views(a@).take(0) =~= seq![]);
                assert(crate::text::texts(out@) =~= seq![]);
                while i < a.len()
                    invariant
                        i <= a@.len(),
                        crate::text::texts(out@) == texts_in(views(a@).take(i as int)),
                    decreases a@.len() - i,
                {
                    proof {
                        let t = views(a@).take(i + 1);
                        assert(t.drop_last() =~= views(a@).take(i as int));
                        assert(t.last() == a@[i as int]@);
                    }
                    if let Json::Str(s) = &a[i] {
                        let ghost prev = out@;
                        out.push(s.clone());
                        assert(crate::text::texts(out@) =~= crate::text::texts(prev).push(s@));
                    }
                    i += 1;
                }
                assert(views(a@).take(a@.len() as int) =~= views(a@));
            },
            None => {
                assert(crate::text::texts(out@) =~= seq![]);
            },
        }
        out
    }

    /// The unsigned number under the key `k`, if one stands there.
    pub fn uint_at(&self, k: &str) -> (r: Option<u64>)
        ensures
            match r {
                Some(n) => self@.uint(k@) == Some(n as int),
                None => self@.uint(k@) is None,
            },
    {
        match self.get(k) {
            Some(Json::Uint(n)) => Some(*n),
            Some(Json::Int(n)) => if *n >= 0 {
                Some(*n as u64)
            } else {
                None
            },
            _ => None,
        }
    }

    /// Whether `true` stands under the key `k`.
    pub fn flag_at(&self, k: &str) -> (r: bool)
        ensures
            r == self@.flag(k@),
    {
        match self.get(k) {
            Some(Json::Bool(b)) => *b,
            _ => false,
        }
    }

    /// The object with `v` under the key `k`.
    pub fn with(self, k: &str, v: Json) -> (r: Json)
        ensures
            r@ == self@.put(k@, v@),
    {
        let ghost w = self@.entries();
        let ghost g = v@;
        let mut e: Vec<(String, Json)> = match self {
            Json::Obj(e) => e,
            _ => Vec::new(),
        };
        let ghost before = e@;
        proof {
            entry_views_by_index(before);
        }
        assert(w =~= entry_views(before));
        assert(w.skip(0) =~= w);
        assert(w.take(0) =~= seq![]);
        assert(put_entry(w, k@, g) =~= w.take(0) + put_entry(w.skip(0), k@, g));
        let mut i: usize = 0;
        while i < e.len()
            invariant
                i <= e@.len(),
                e@ == before,
                w == self@.entries(),
                w == entry_views(before),
                w.len() == before.len(),
                forall|j: int|
                    0 <= j < before.len() ==> #[trigger] w[j] == (before[j].0@, before[j].1@),
                v@ == g,
                put_entry(w, k@, g) == w.take(i as int) + put_entry(w.skip(i as int), k@, g),
            decreases e@.len() - i,
        {
            let ghost rest = w.skip(i as int);
            assert(rest[0] == w[i as int]);
            assert(rest.skip(1) =~= w.skip(i + 1));
            if same(e[i].0.as_str(), k) {
                e.remove(i);
                e.insert(i, (k.to_owned(), v));
                let ghost g2 = e@;
                let r = Json::Obj(e);
                proof {
                    let out = r@->Obj_0;
                    entry_views_by_index(g2);
                    assert(out =~= w.take(i as int) + (seq![(k@, g)] + rest.skip(1)));
                }
                return r;
            }
            if precedes(k, e[i].0.as_str()) {
                e.insert(i, (k.to_owned(), v));
                let ghost g2 = e@;
                let r = Json::Obj(e);
                proof {
                    let out = r@->Obj_0;
                    entry_views_by_index(g2);
                    assert(out =~= w.take(i as int) + (seq![(k@, g)] + rest));
                }
                return r;
            }
            proof {
                assert(w.take(i + 1) =~= w.take(i as int).push(w[i as int]));
                assert(w.take(i as int) + (seq![rest[0]] + put_entry(rest.skip(1), k@, g))
                    =~= w.take(i + 1) + put_entry(w.skip(i + 1), k@, g));
            }
            i += 1;
        }
        e.push((k.to_owned(), v));
        let ghost g2 = e@;
        let r = Json::Obj(e);
        proof {
            entry_views_by_index(g2);
            assert(w.take(i as int) =~= w);
            assert(w.skip(i as int) =~= seq![]);
            assert(r@->Obj_0 =~= w + seq![(k@, g)]);
        }
        r
    }
}

/// A text as a value is printed.
pub open spec fn quoted(s: Seq<char>) -> Seq<char> {
    json_text(JsonView::Str(s))
}

/// A text as a value is printed.
pub fn quote(s: &str) -> (r: String)
    ensures
        r@ == quoted(s@),
{
    compact(&Json::text(s))
}

/// The text of a value, or the empty text.
pub fn value_text(j: &Json) -> (r: String)
    ensures
        r@ == text_of(j@),
{
    match j {
        Json::Str(s) => s.clone(),
        _ => String::new(),
    }
}

// ---------------------------------------------------------------- laws

/// A value put under a key is read under it, and every other key reads as before.
pub proof fn put_then_get(v: JsonView, k: Seq<char>, x: JsonView, q: Seq<char>)
    ensures
        v.put(k, x).get(q) == if q == k {
            Some(x)
        } else {
            v.get(q)
        },
{
    put_then_lookup(v.entries(), k, x, q);
}

/// What is put under a key is read there, and what stands under any other key stays, for
/// proofs about a row of them.
pub broadcast proof fn read_of_put(v: JsonView, k: Seq<char>, x: JsonView, q: Seq<char>)
    ensures
        #[trigger] v.put(k, x).get(q) == if q == k {
            Some(x)
        } else {
            v.get(q)
        },
{
    put_then_get(v, k, x, q);
}

proof fn put_then_lookup(
    e: Seq<(Seq<char>, JsonView)>,
    k: Seq<char>,
    x: JsonView,
    q: Seq<char>,
)
    ensures
        lookup(put_entry(e, k, x), q) == if q == k {
            Some(x)
        } else {
            lookup(e, q)
        },
    decreases e.len(),
{
    let p = put_entry(e, k, x);
    if e.len() == 0 {
        assert(p.skip(1) =~= seq![]);
        assert(lookup(p.skip(1), q) is None);
    } else if e[0].0 == k {
        assert(p.skip(1) =~= e.skip(1));
    } else if text_lt(k, e[0].0) {
        assert(p.skip(1) =~= e);
    } else {
        assert(p.skip(1) =~= put_entry(e.skip(1), k, x));
        put_then_lookup(e.skip(1), k, x, q);
    }
}

proof fn put_last(e: Seq<(Seq<char>, JsonView)>, k: Seq<char>, x: JsonView)
    requires
        forall|i: int| 0 <= i < e.len() ==> text_lt(#[trigger] e[i].0, k),
    ensures
        put_entry(e, k, x) == e.push((k, x)),
    decreases e.len(),
{
    if e.len() == 0 {
        assert(put_entry(e, k, x) =~= e.push((k, x)));
    } else {
        assert(text_lt(e[0].0, k));
        text_lt_irreflexive(k);
        if text_lt(k, e[0].0) {
            text_lt_transitive(k, e[0].0, k);
        }
        let r = e.skip(1);
        assert forall|i: int| 0 <= i < r.len() implies text_lt(#[trigger] r[i].0, k) by {
            assert(r[i] == e[i + 1]);
        }
        put_last(r, k, x);
        assert(seq![e[0]] + r.push((k, x)) =~= e.push((k, x)));
    }
}

proof fn canon_entries_keep(e: Seq<(Seq<char>, JsonView)>)
    requires
        ascending(e),
        forall|i: int| 0 <= i < e.len() ==> (#[trigger] e[i]).1.orderly(),
    ensures
        canon_entries(e) == e,
    decreases e,
{
    if e.len() == 0 {
        assert(canon_entries(e) =~= e);
    } else {
        let d = e.drop_last();
        let l = e.last();
        assert(l == e[e.len() - 1]);
        assert(e[e.len() - 1].1.orderly());
        canon_keeps_orderly(l.1);
        assert forall|i: int| 0 <= i < d.len() implies (#[trigger] d[i]).1.orderly() by {
            assert(e[i].1.orderly());
        }
        assert forall|i: int, j: int| 0 <= i < j < d.len() implies text_lt(
            #[trigger] d[i].0,
            #[trigger] d[j].0,
        ) by {
            assert(text_lt(e[i].0, e[j].0));
        }
        canon_entries_keep(d);
        assert forall|i: int| 0 <= i < d.len() implies text_lt(#[trigger] d[i].0, l.0) by {
            assert(text_lt(e[i].0, e[e.len() - 1].0));
        }
        put_last(d, l.0, l.1);
        assert(d.push((l.0, l.1)) =~= e);
    }
}

/// A value whose entries stand in order is the same in order.
pub proof fn canon_keeps_orderly(v: JsonView)
    requires
        v.orderly(),
    ensures
        v.canon() == v,
    decreases v,
{
    match v {
        JsonView::Arr(a) => {
            assert forall|i: int| 0 <= i < a.len() implies (#[trigger] a[i]).canon() == a[i] by {
                assert(a[i].orderly());
                canon_keeps_orderly(a[i]);
            }
            assert(v.canon()->Arr_0 =~= a);
        },
        JsonView::Obj(e) => {
            canon_entries_keep(e);
        },
        _ => {},
    }
}

proof fn put_ascends(e: Seq<(Seq<char>, JsonView)>, k: Seq<char>, x: JsonView)
    requires
        ascending(e),
    ensures
        ascending(put_entry(e, k, x)),
    decreases e.len(),
{
    let p = put_entry(e, k, x);
    if e.len() == 0 {
    } else if e[0].0 == k {
        assert(forall|i: int| 0 < i < p.len() ==> p[i] == e[i]);
        assert forall|i: int, j: int| 0 <= i < j < p.len() implies text_lt(
            #[trigger] p[i].0,
            #[trigger] p[j].0,
        ) by {
            assert(text_lt(e[i].0, e[j].0));
        }
    } else if text_lt(k, e[0].0) {
        assert(forall|i: int| 0 < i < p.len() ==> p[i] == e[i - 1]);
        assert forall|i: int, j: int| 0 <= i < j < p.len() implies text_lt(
            #[trigger] p[i].0,
            #[trigger] p[j].0,
        ) by {
            if i > 0 {
                assert(text_lt(e[i - 1].0, e[j - 1].0));
            } else if j > 1 {
                assert(text_lt(e[0].0, e[j - 1].0));
                text_lt_transitive(k, e[0].0, e[j - 1].0);
            }
        }
    } else {
        let r = e.skip(1);
        let q = put_entry(r, k, x);
        assert(p =~= seq![e[0]] + q);
        assert forall|i: int, j: int| 0 <= i < j < r.len() implies text_lt(
            #[trigger] r[i].0,
            #[trigger] r[j].0,
        ) by {
            assert(text_lt(e[i + 1].0, e[j + 1].0));
        }
        put_ascends(r, k, x);
        text_lt_total(k, e[0].0);
        put_holds(r, k, x);
        assert forall|i: int, j: int| 0 <= i < j < p.len() implies text_lt(
            #[trigger] p[i].0,
            #[trigger] p[j].0,
        ) by {
            assert(p[j] == q[j - 1]);
            if i > 0 {
                assert(p[i] == q[i - 1]);
            } else if q[j - 1] != (k, x) {
                let m = choose|m: int| 0 <= m < r.len() && #[trigger] r[m] == q[j - 1];
                assert(text_lt(e[0].0, e[m + 1].0));
            }
        }
    }
}

/// An entry put into a value in order leaves the value in order.
pub broadcast proof fn put_keeps_orderly(v: JsonView, k: Seq<char>, x: JsonView)
    requires
        v.orderly(),
        x.orderly(),
    ensures
        #[trigger] v.put(k, x).orderly(),
{
    let e = v.entries();
    put_ascends(e, k, x);
    put_holds(e, k, x);
    let p = put_entry(e, k, x);
    assert forall|i: int| 0 <= i < p.len() implies (#[trigger] p[i]).1.orderly() by {
        if p[i] != (k, x) {
            let j = choose|j: int| 0 <= j < e.len() && #[trigger] e[j] == p[i];
            assert(e[j].1.orderly());
        }
    }
}

/// An entry put into a value without fractions leaves it so, one level deeper than
/// the entry at the least.
pub broadcast proof fn put_keeps_simple(v: JsonView, k: Seq<char>, x: JsonView, depth: nat)
    requires
        depth > 0,
        v.simple(depth),
        x.simple((depth - 1) as nat),
    ensures
        #[trigger] v.put(k, x).simple(depth),
{
    let e = v.entries();
    put_holds(e, k, x);
    let p = put_entry(e, k, x);
    assert forall|i: int| 0 <= i < p.len() implies (#[trigger] p[i]).1.simple(
        (depth - 1) as nat,
    ) by {
        if p[i] != (k, x) {
            let j = choose|j: int| 0 <= j < e.len() && #[trigger] e[j] == p[i];
            assert(e[j].1.simple((depth - 1) as nat));
        }
    }
}

proof fn put_holds(e: Seq<(Seq<char>, JsonView)>, k: Seq<char>, x: JsonView)
    ensures
        forall|i: int|
            0 <= i < put_entry(e, k, x).len() ==> #[trigger] put_entry(e, k, x)[i] == (k, x)
                || exists|j: int| 0 <= j < e.len() && #[trigger] e[j] == put_entry(e, k, x)[i],
    decreases e.len(),
{
    let p = put_entry(e, k, x);
    if e.len() == 0 {
    } else if e[0].0 == k {
        assert(forall|i: int| 0 < i < p.len() ==> p[i] == e[i]);
    } else if text_lt(k, e[0].0) {
        assert(forall|i: int| 0 < i < p.len() ==> p[i] == e[i - 1]);
    } else {
        let r = e.skip(1);
        let q = put_entry(r, k, x);
        assert(p =~= seq![e[0]] + q);
        put_holds(r, k, x);
        assert forall|i: int| 0 <= i < p.len() implies #[trigger] p[i] == (k, x) || exists|j: int|
            0 <= j < e.len() && #[trigger] e[j] == p[i] by {
            if i == 0 {
                assert(e[0] == p[0]);
            } else {
                assert(p[i] == q[i - 1]);
                if q[i - 1] != (k, x) {
                    let j = choose|j: int| 0 <= j < r.len() && #[trigger] r[j] == q[i - 1];
                    assert(e[j + 1] == p[i]);
                }
            }
        }
    }
}

/// What stands in a value in order is in order.
pub proof fn at_keeps_orderly(v: JsonView, k: Seq<char>)
    requires
        v.orderly(),
    ensures
        v.at(k).orderly(),
{
    lookup_is_entry(v.entries(), k);
    if let Some(x) = v.get(k) {
        let e = v.entries();
        let i = choose|i: int| 0 <= i < e.len() && (#[trigger] e[i]).1 == x;
        assert(e[i].1.orderly());
    }
}

proof fn lookup_is_entry(e: Seq<(Seq<char>, JsonView)>, k: Seq<char>)
    ensures
        lookup(e, k) matches Some(x) ==> exists|i: int| 0 <= i < e.len() && (#[trigger] e[i]).1 == x,
    decreases e.len(),
{
    if e.len() > 0 && e[0].0 != k {
        let r = e.skip(1);
        lookup_is_entry(r, k);
        if let Some(x) = lookup(r, k) {
            let i = choose|i: int| 0 <= i < r.len() && (#[trigger] r[i]).1 == x;
            assert(e[i + 1].1 == x);
        }
    }
}

// ---------------------------------------------------------------- texts in arrays

/// The texts of an array are given in their order, and what is no text is passed over.
pub proof fn texts_are_given(a: Seq<JsonView>, s: Seq<char>, v: JsonView)
    ensures
        texts_in(a.push(JsonView::Str(s))) == texts_in(a).push(s),
        v !is Str ==> texts_in(a.push(v)) == texts_in(a),
        texts_in(seq![]).len() == 0,
{
    assert(a.push(JsonView::Str(s)).drop_last() =~= a);
    assert(a.push(v).drop_last() =~= a);
}

/// A key that stands in an object gives its value, a text where that is one; a key that does
/// not gives nothing.
pub proof fn keys_give_their_values(v: JsonView, k: Seq<char>, s: Seq<char>, n: u64, d: Seq<char>)
    ensures
        v.put(k, JsonView::Str(s)).text(k) == Some(s),
        v.put(k, JsonView::Str(s)).text_or(k, d) == s,
        v.put(k, JsonView::Int(n as int)).uint(k) == Some(n as int),
        v.put(k, JsonView::Int(-1)).uint(k) is None,
        v.put(k, JsonView::Bool(true)).flag(k),
        !v.put(k, JsonView::Bool(false)).flag(k),
        JsonView::object().get(k) is None,
        JsonView::object().text_or(k, d) == d,
        !JsonView::object().flag(k),
{
    broadcast use read_of_put;

}

} // verus!
