//! The data model of templates: the values of front matter, site
//! configuration and template variables.

use crate::text::{chars_of, int_text, int_to_text, str_eq, string_from_chars};
use vstd::prelude::*;

verus! {

/// A list of values.
pub type AllayList = Vec<AllayData>;

/// A value of the template language.
#[derive(Debug)]
pub enum AllayData {
    Int(i64),
    Bool(bool),
    String(String),
    List(AllayList),
    Object(AllayObject),
    Null,
}

/// An object: keys mapped to values. Each key occurs once, in the order of
/// its first insertion.
#[derive(Debug)]
pub struct AllayObject {
    pub entries: Vec<(String, AllayData)>,
}

/// The errors on data.
#[derive(Debug)]
pub enum AllayDataError {
    /// A file could not be read.
    File(String),
    /// TOML text could not be parsed.
    TomlParse(String),
    /// YAML text could not be parsed.
    YamlParse(String),
    /// JSON text could not be parsed.
    JsonParse(String),
    /// The file format is not supported.
    UnsupportedFormat(String),
    /// A value does not have the expected type.
    TypeConversion(String),
    /// A key is missing.
    KeyNotFound(String),
    /// An index is past the end of a list.
    IndexOutOfBounds(usize),
    /// The operation cannot be done on these values.
    InvalidOperation(String),
}

/// A value as plain data: strings as characters, lists and object entries
/// as sequences, in order.
pub enum DataView {
    Int(i64),
    Bool(bool),
    Str(Seq<char>),
    List(Seq<DataView>),
    Obj(Seq<(Seq<char>, DataView)>),
    Null,
}

/// The meaning of a value, with objects as maps from keys to the meanings
/// of their values. Two values are equal when their meanings are.
pub enum Value {
    Int(i64),
    Bool(bool),
    Str(Seq<char>),
    List(Seq<Value>),
    Obj(Map<Seq<char>, Value>),
    Null,
}

/// The views of a sequence of values.
pub open spec fn list_view(s: Seq<AllayData>) -> Seq<DataView>
    decreases s,
{
    if s.len() == 0 {
        Seq::empty()
    } else {
        list_view(s.drop_last()).push(s.last().view_of())
    }
}

/// The views of the entries of an object.
pub open spec fn entries_view(s: Seq<(String, AllayData)>) -> Seq<(Seq<char>, DataView)>
    decreases s,
{
    if s.len() == 0 {
        Seq::empty()
    } else {
        entries_view(s.drop_last()).push((s.last().0@, s.last().1.view_of()))
    }
}

impl AllayData {
    /// The value as plain data.
    pub open spec fn view_of(self) -> DataView
        decreases self,
    {
        match self {
            AllayData::Int(i) => DataView::Int(i),
            AllayData::Bool(b) => DataView::Bool(b),
            AllayData::String(s) => DataView::Str(s@),
            AllayData::List(v) => DataView::List(list_view(v@)),
            AllayData::Object(o) => DataView::Obj(entries_view(o.entries@)),
            AllayData::Null => DataView::Null,
        }
    }
}

impl View for AllayData {
    type V = DataView;

    open spec fn view(&self) -> DataView {
        self.view_of()
    }
}

/// The meanings of a sequence of values.
pub open spec fn list_meaning(s: Seq<DataView>) -> Seq<Value>
    decreases s,
{
    if s.len() == 0 {
        Seq::empty()
    } else {
        list_meaning(s.drop_last()).push(meaning(s.last()))
    }
}

/// The meaning of the entries of an object: a later entry for a key wins.
pub open spec fn entries_meaning(s: Seq<(Seq<char>, DataView)>) -> Map<Seq<char>, Value>
    decreases s,
{
    if s.len() == 0 {
        Map::empty()
    } else {
        entries_meaning(s.drop_last()).insert(s.last().0, meaning(s.last().1))
    }
}

/// The meaning of a value.
pub open spec fn meaning(d: DataView) -> Value
    decreases d,
{
    match d {
        DataView::Int(i) => Value::Int(i),
        DataView::Bool(b) => Value::Bool(b),
        DataView::Str(s) => Value::Str(s),
        DataView::List(s) => Value::List(list_meaning(s)),
        DataView::Obj(s) => Value::Obj(entries_meaning(s)),
        DataView::Null => Value::Null,
    }
}

/// The text of a value in a rendered page.
pub open spec fn render_text(d: DataView) -> Seq<char>
    decreases d,
{
    match d {
        DataView::Int(i) => int_text(i as int),
        DataView::Bool(b) => if b {
            seq!['t', 'r', 'u', 'e']
        } else {
            seq!['f', 'a', 'l', 's', 'e']
        },
        DataView::Str(s) => s,
        DataView::List(v) => seq!['['] + render_items(v) + seq![']'],
        DataView::Obj(o) => seq!['{'] + render_entries(o) + seq!['}'],
        DataView::Null => seq!['n', 'u', 'l', 'l'],
    }
}

/// The texts of the values of a list, separated by `", "`.
pub open spec fn render_items(s: Seq<DataView>) -> Seq<char>
    decreases s,
{
    if s.len() == 0 {
        Seq::empty()
    } else if s.len() == 1 {
        render_text(s[0])
    } else {
        render_items(s.drop_last()) + seq![',', ' '] + render_text(s.last())
    }
}

/// The entries of an object as `key: value`, separated by `", "`.
pub open spec fn render_entries(s: Seq<(Seq<char>, DataView)>) -> Seq<char>
    decreases s,
{
    if s.len() == 0 {
        Seq::empty()
    } else if s.len() == 1 {
        s[0].0 + seq![':', ' '] + render_text(s[0].1)
    } else {
        render_entries(s.drop_last()) + seq![',', ' '] + s.last().0 + seq![':', ' '] + render_text(
            s.last().1,
        )
    }
}

/// The index of the last entry of key `k`.
pub open spec fn last_index(s: Seq<(Seq<char>, DataView)>, k: Seq<char>) -> Option<int>
    decreases s.len(),
{
    if s.len() == 0 {
        None
    } else if s.last().0 == k {
        Some(s.len() - 1)
    } else {
        last_index(s.drop_last(), k)
    }
}

/// The value of key `k`: that of its last entry.
pub open spec fn lookup(s: Seq<(Seq<char>, DataView)>, k: Seq<char>) -> Option<DataView> {
    match last_index(s, k) {
        Some(i) => Some(s[i].1),
        None => None,
    }
}

/// The entries after setting key `k` to `v`: the last entry of `k` takes
/// the new value, or a new entry comes last.
pub open spec fn put(s: Seq<(Seq<char>, DataView)>, k: Seq<char>, v: DataView) -> Seq<(Seq<char>, DataView)> {
    match last_index(s, k) {
        Some(i) => s.update(i, (k, v)),
        None => s.push((k, v)),
    }
}

/// The views of a list, element by element.
pub proof fn lemma_list_view(s: Seq<AllayData>)
    ensures
        list_view(s).len() == s.len(),
        forall|i: int| 0 <= i < s.len() ==> #[trigger] list_view(s)[i] == s[i]@,
    decreases s.len(),
{
    if s.len() > 0 {
        lemma_list_view(s.drop_last());
    }
}

/// The views of the entries of an object, entry by entry.
pub proof fn lemma_entries_view(s: Seq<(String, AllayData)>)
    ensures
        entries_view(s).len() == s.len(),
        forall|i: int| 0 <= i < s.len() ==> #[trigger] entries_view(s)[i] == (s[i].0@, s[i].1@),
    decreases s.len(),
{
    if s.len() > 0 {
        lemma_entries_view(s.drop_last());
    }
}

/// The last index of a key is that of its last entry.
pub proof fn lemma_last_index(s: Seq<(Seq<char>, DataView)>, k: Seq<char>)
    ensures
        last_index(s, k) matches Some(i) ==> 0 <= i < s.len() && s[i].0 == k && forall|j: int|
            i < j < s.len() ==> s[j].0 != k,
        last_index(s, k) is None ==> forall|j: int| 0 <= j < s.len() ==> s[j].0 != k,
    decreases s.len(),
{
    if s.len() > 0 {
        lemma_last_index(s.drop_last(), k);
        if s.last().0 != k {
            assert forall|j: int| 0 <= j < s.len() - 1 implies s[j].0 == s.drop_last()[j].0 by {}
        }
    }
}

/// An entry of `k` with no later entry of `k` is at its last index.
pub proof fn lemma_last_index_at(s: Seq<(Seq<char>, DataView)>, k: Seq<char>, i: int)
    requires
        0 <= i < s.len(),
        s[i].0 == k,
        forall|j: int| i < j < s.len() ==> s[j].0 != k,
    ensures
        last_index(s, k) == Some(i),
    decreases s.len(),
{
    if i < s.len() - 1 {
        let t = s.drop_last();
        assert(s[s.len() - 1].0 != k);
        assert forall|j: int| i < j < t.len() implies t[j].0 != k by {
            assert(s[j].0 != k);
        }
        lemma_last_index_at(t, k, i);
    }
}

/// A key's value in the meaning of an object is the meaning of its lookup.
pub proof fn lemma_lookup_meaning(s: Seq<(Seq<char>, DataView)>, k: Seq<char>)
    ensures
        entries_meaning(s).contains_key(k) <==> lookup(s, k) is Some,
        lookup(s, k) matches Some(d) ==> entries_meaning(s)[k] == meaning(d),
    decreases s.len(),
{
    if s.len() > 0 {
        lemma_lookup_meaning(s.drop_last(), k);
        if s.last().0 != k {
            lemma_last_index(s.drop_last(), k);
        }
    }
}

/// Setting a key updates the meaning of an object by that key alone.
pub proof fn lemma_put_meaning(s: Seq<(Seq<char>, DataView)>, k: Seq<char>, v: DataView)
    ensures
        entries_meaning(put(s, k, v)) == entries_meaning(s).insert(k, meaning(v)),
        lookup(put(s, k, v), k) == Some(v),
    decreases s.len(),
{
    lemma_last_index(s, k);
    match last_index(s, k) {
        Some(i) => {
            let u = s.update(i, (k, v));
            if i == s.len() - 1 {
                assert(u.drop_last() =~= s.drop_last());
            } else {
                let t = s.drop_last();
                lemma_put_meaning(t, k, v);
                lemma_last_index(t, k);
                assert(last_index(t, k) == Some(i));
                assert(u.drop_last() =~= t.update(i, (k, v)));
                assert(entries_meaning(u) =~= entries_meaning(s).insert(k, meaning(v)));
                assert forall|j: int| i < j < u.len() implies u[j].0 != k by {
                    assert(u[j] == s[j]);
                }
                lemma_last_index_at(u, k, i);
            }
        },
        None => {
            assert(s.push((k, v)).drop_last() =~= s);
        },
    }
}

impl AllayObject {
    /// The entries of the object, in order.
    pub open spec fn view(&self) -> Seq<(Seq<char>, DataView)> {
        entries_view(self.entries@)
    }

    /// The meaning of the object: its keys mapped to the meanings of their values.
    pub open spec fn map(&self) -> Map<Seq<char>, Value> {
        entries_meaning(self.view())
    }

    /// An empty object.
    pub fn new() -> (o: AllayObject)
        ensures
            o.view() == Seq::<(Seq<char>, DataView)>::empty(),
    {
        AllayObject { entries: Vec::new() }
    }

    /// The index of the last entry of `key`.
    fn find(&self, key: &str) -> (r: Option<usize>)
        ensures
            r matches Some(i) ==> last_index(self.view(), key@) == Some(i as int),
            r is None ==> last_index(self.view(), key@) is None,
    {
        proof {
            lemma_entries_view(self.entries@);
        }
        let ghost sv = self.view();
        let mut i = self.entries.len();
        assert(sv.subrange(0, i as int) =~= sv);
        while i > 0
            invariant
                i <= self.entries@.len(),
                sv == self.view(),
                sv.len() == self.entries@.len(),
                forall|j: int| 0 <= j < self.entries@.len() ==> #[trigger] sv[j] == (self.entries@[j].0@, self.entries@[j].1@),
                last_index(sv, key@) == last_index(sv.subrange(0, i as int), key@),
            decreases i,
        {
            assert(sv.subrange(0, i as int).drop_last() =~= sv.subrange(0, i - 1));
            assert(sv[i - 1].0 == self.entries@[i - 1].0@);
            if str_eq(self.entries[i - 1].0.as_str(), key) {
                return Some(i - 1);
            }
            i -= 1;
        }
        None
    }

    /// The value of `key`, if any: that of its last entry.
    pub fn get(&self, key: &str) -> (r: Option<&AllayData>)
        ensures
            r is None <==> lookup(self.view(), key@) is None,
            r matches Some(v) ==> lookup(self.view(), key@) == Some(v@),
    {
        proof {
            lemma_entries_view(self.entries@);
        }
        match self.find(key) {
            Some(i) => {
                proof {
                    lemma_last_index(self.view(), key@);
                }
                Some(&self.entries[i].1)
            },
            None => None,
        }
    }

    /// Whether the object has the key.
    pub fn contains_key(&self, key: &str) -> (r: bool)
        ensures
            r == self.map().contains_key(key@),
    {
        proof {
            lemma_lookup_meaning(self.view(), key@);
        }
        self.get(key).is_some()
    }

    /// The number of entries.
    pub fn len(&self) -> (r: usize)
        ensures
            r == self.view().len(),
    {
        proof {
            lemma_entries_view(self.entries@);
        }
        self.entries.len()
    }

    /// Sets the value of `key`, giving back its former value.
    pub fn insert(&mut self, key: String, value: AllayData) -> (r: Option<AllayData>)
        ensures
            final(self).view() == put(old(self).view(), key@, value@),
            r is None <==> lookup(old(self).view(), key@) is None,
            r matches Some(v) ==> lookup(old(self).view(), key@) == Some(v@),
    {
        proof {
            lemma_entries_view(self.entries@);
        }
        let ghost sv = self.view();
        let ghost kv = key@;
        let ghost vv = value@;
        match self.find(key.as_str()) {
            Some(i) => {
                proof {
                    lemma_last_index(sv, kv);
                }
                let prev = self.entries[i].1.duplicate();
                self.entries.set(i, (key, value));
                proof {
                    lemma_entries_view(self.entries@);
                    assert(self.view() =~= sv.update(i as int, (kv, vv)));
                }
                Some(prev)
            },
            None => {
                self.entries.push((key, value));
                proof {
                    lemma_entries_view(self.entries@);
                    assert(self.view() =~= sv.push((kv, vv)));
                }
                None
            },
        }
    }
}

impl AllayData {
    /// A deep copy of the value.
    pub fn duplicate(&self) -> (r: AllayData)
        ensures
            r@ == self@,
        decreases self,
    {
        match self {
            AllayData::Int(i) => AllayData::Int(*i),
            AllayData::Bool(b) => AllayData::Bool(*b),
            AllayData::String(s) => AllayData::String(s.clone()),
            AllayData::List(v) => {
                let mut out: Vec<AllayData> = Vec::new();
                let mut i: usize = 0;
                proof {
                    lemma_list_view(v@);
                }
                while i < v.len()
                    invariant
                        *self == AllayData::List(*v),
                        i <= v@.len(),
                        out@.len() == i,
                        forall|j: int| 0 <= j < i ==> #[trigger] out@[j]@ == v@[j]@,
                    decreases v.len() - i,
                {
                    proof {
                        assert(self->List_0 == *v);
                        assert(decreases_to!(*self => self->List_0));
                        assert(decreases_to!(*v => v@));
                        assert(decreases_to!(v@ => v@[i as int]));
                    }
                    out.push(v[i].duplicate());
                    i += 1;
                }
                proof {
                    lemma_list_view(out@);
                    assert(list_view(out@) =~= list_view(v@));
                }
                AllayData::List(out)
            },
            AllayData::Object(o) => {
                let mut out: Vec<(String, AllayData)> = Vec::new();
                let mut i: usize = 0;
                proof {
                    lemma_entries_view(o.entries@);
                }
                while i < o.entries.len()
                    invariant
                        *self == AllayData::Object(*o),
                        i <= o.entries@.len(),
                        out@.len() == i,
                        forall|j: int| 0 <= j < i ==> (#[trigger] out@[j]).0@ == o.entries@[j].0@ && out@[j].1@
                            == o.entries@[j].1@,
                    decreases o.entries.len() - i,
                {
                    let k = o.entries[i].0.clone();
                    proof {
                        assert(self->Object_0 == *o);
                        assert(decreases_to!(*self => self->Object_0));
                        assert(decreases_to!(*o => o.entries));
                        assert(decreases_to!(o.entries => o.entries@));
                        assert(decreases_to!(o.entries@ => o.entries@[i as int]));
                        assert(decreases_to!(o.entries@[i as int] => o.entries@[i as int].1));
                    }
                    let v = o.entries[i].1.duplicate();
                    out.push((k, v));
                    i += 1;
                }
                proof {
                    lemma_entries_view(out@);
                    assert(entries_view(out@) =~= entries_view(o.entries@));
                }
                AllayData::Object(AllayObject { entries: out })
            },
            AllayData::Null => AllayData::Null,
        }
    }
    /// Whether the value is a string.
    pub fn is_str(&self) -> (r: bool)
        ensures
            r == (self is String),
    {
        matches!(self, AllayData::String(_))
    }

    /// Whether the value is an integer.
    pub fn is_int(&self) -> (r: bool)
        ensures
            r == (self is Int),
    {
        matches!(self, AllayData::Int(_))
    }

    /// Whether the value is a boolean.
    pub fn is_bool(&self) -> (r: bool)
        ensures
            r == (self is Bool),
    {
        matches!(self, AllayData::Bool(_))
    }

    /// Whether the value is a list.
    pub fn is_list(&self) -> (r: bool)
        ensures
            r == (self is List),
    {
        matches!(self, AllayData::List(_))
    }

    /// Whether the value is an object.
    pub fn is_obj(&self) -> (r: bool)
        ensures
            r == (self is Object),
    {
        matches!(self, AllayData::Object(_))
    }

    /// Whether the value is null.
    pub fn is_null(&self) -> (r: bool)
        ensures
            r == (self is Null),
    {
        matches!(self, AllayData::Null)
    }

    /// The string, or a type error.
    pub fn as_str(&self) -> (r: Result<&String, AllayDataError>)
        ensures
            self is String <==> r is Ok,
            r matches Ok(s) ==> self@ == DataView::Str(s@),
            r matches Err(e) ==> (e matches AllayDataError::TypeConversion(m) && m@ == "not a string"@),
    {
        match self {
            AllayData::String(s) => Ok(s),
            _ => Err(AllayDataError::TypeConversion("not a string".to_string())),
        }
    }

    /// The integer, or a type error.
    pub fn as_int(&self) -> (r: Result<i64, AllayDataError>)
        ensures
            self is Int <==> r is Ok,
            r matches Ok(i) ==> self@ == DataView::Int(i),
            r matches Err(e) ==> (e matches AllayDataError::TypeConversion(m) && m@ == "not an integer"@),
    {
        match self {
            AllayData::Int(i) => Ok(*i),
            _ => Err(AllayDataError::TypeConversion("not an integer".to_string())),
        }
    }

    /// The boolean, or a type error.
    pub fn as_bool(&self) -> (r: Result<bool, AllayDataError>)
        ensures
            self is Bool <==> r is Ok,
            r matches Ok(b) ==> self@ == DataView::Bool(b),
            r matches Err(e) ==> (e matches AllayDataError::TypeConversion(m) && m@ == "not a boolean"@),
    {
        match self {
            AllayData::Bool(b) => Ok(*b),
            _ => Err(AllayDataError::TypeConversion("not a boolean".to_string())),
        }
    }

    /// The list, or a type error.
    pub fn as_list(&self) -> (r: Result<&AllayList, AllayDataError>)
        ensures
            self is List <==> r is Ok,
            r matches Ok(v) ==> self@ == DataView::List(list_view(v@)),
            r matches Err(e) ==> (e matches AllayDataError::TypeConversion(m) && m@ == "not a list"@),
    {
        match self {
            AllayData::List(v) => Ok(v),
            _ => Err(AllayDataError::TypeConversion("not a list".to_string())),
        }
    }

    /// The object, or a type error.
    pub fn as_obj(&self) -> (r: Result<&AllayObject, AllayDataError>)
        ensures
            self is Object <==> r is Ok,
            r matches Ok(o) ==> self@ == DataView::Obj(o.view()),
            r matches Err(e) ==> (e matches AllayDataError::TypeConversion(m) && m@ == "not an object"@),
    {
        match self {
            AllayData::Object(o) => Ok(o),
            _ => Err(AllayDataError::TypeConversion("not an object".to_string())),
        }
    }
}

/// The meanings of a list, element by element.
pub proof fn lemma_list_meaning(s: Seq<DataView>)
    ensures
        list_meaning(s).len() == s.len(),
        forall|i: int| 0 <= i < s.len() ==> #[trigger] list_meaning(s)[i] == meaning(s[i]),
    decreases s.len(),
{
    if s.len() > 0 {
        lemma_list_meaning(s.drop_last());
    }
}

/// A key has a value exactly when some entry has the key.
pub proof fn lemma_lookup_some(s: Seq<(Seq<char>, DataView)>, k: Seq<char>)
    ensures
        lookup(s, k) is Some <==> exists|i: int| 0 <= i < s.len() && #[trigger] s[i].0 == k,
{
    lemma_last_index(s, k);
    if exists|i: int| 0 <= i < s.len() && #[trigger] s[i].0 == k {
        let i = choose|i: int| 0 <= i < s.len() && #[trigger] s[i].0 == k;
    }
}

impl AllayObject {
    /// The index of the last entry of `key`, for a key given by the
    /// characters of another entry.
    fn find_string(&self, key: &String) -> (r: Option<usize>)
        ensures
            r matches Some(i) ==> last_index(self.view(), key@) == Some(i as int) && i < self.entries@.len(),
            r is None ==> last_index(self.view(), key@) is None,
    {
        let r = self.find(key.as_str());
        proof {
            lemma_entries_view(self.entries@);
            lemma_last_index(self.view(), key@);
        }
        r
    }
}

impl AllayData {
    /// Whether two values mean the same: the same integer, boolean or
    /// string, lists equal element by element, objects with the same keys
    /// and equal values.
    pub fn same_value(&self, other: &AllayData) -> (r: bool)
        ensures
            r == (meaning(self@) == meaning(other@)),
        decreases self,
    {
        match (self, other) {
            (AllayData::Int(a), AllayData::Int(b)) => *a == *b,
            (AllayData::Bool(a), AllayData::Bool(b)) => *a == *b,
            (AllayData::String(a), AllayData::String(b)) => *a == *b,
            (AllayData::Null, AllayData::Null) => true,
            (AllayData::List(a), AllayData::List(b)) => {
                proof {
                    lemma_list_view(a@);
                    lemma_list_view(b@);
                    lemma_list_meaning(list_view(a@));
                    lemma_list_meaning(list_view(b@));
                }
                if a.len() != b.len() {
                    assert(list_meaning(list_view(a@)).len() != list_meaning(list_view(b@)).len());
                    assert(meaning(self@) == Value::List(list_meaning(list_view(a@))));
                    assert(meaning(other@) == Value::List(list_meaning(list_view(b@))));
                    return false;
                }
                let mut i: usize = 0;
                while i < a.len()
                    invariant
                        *self == AllayData::List(*a),
                        *other == AllayData::List(*b),
                        a@.len() == b@.len(),
                        i <= a@.len(),
                        forall|j: int| 0 <= j < i ==> meaning(#[trigger] a@[j]@) == meaning(b@[j]@),
                    decreases a.len() - i,
                {
                    proof {
                        assert(self->List_0 == *a);
                        assert(decreases_to!(*self => self->List_0));
                        assert(decreases_to!(*a => a@));
                        assert(decreases_to!(a@ => a@[i as int]));
                    }
                    if !a[i].same_value(&b[i]) {
                        proof {
                            lemma_list_view(a@);
                            lemma_list_view(b@);
                            lemma_list_meaning(list_view(a@));
                            lemma_list_meaning(list_view(b@));
                            assert(list_meaning(list_view(a@))[i as int] != list_meaning(list_view(b@))[i as int]);
                            assert(meaning(self@) == Value::List(list_meaning(list_view(a@))));
                            assert(meaning(other@) == Value::List(list_meaning(list_view(b@))));
                        }
                        return false;
                    }
                    i += 1;
                }
                proof {
                    assert(list_meaning(list_view(a@)) =~= list_meaning(list_view(b@)));
                }
                true
            },
            (AllayData::Object(a), AllayData::Object(b)) => {
                proof {
                    lemma_entries_view(a.entries@);
                    lemma_entries_view(b.entries@);
                }
                let ghost va = a.view();
                let ghost vb = b.view();
                let mut i: usize = 0;
                while i < a.entries.len()
                    invariant
                        *self == AllayData::Object(*a),
                        *other == AllayData::Object(*b),
                        va == a.view(),
                        vb == b.view(),
                        i <= a.entries@.len(),
                        va.len() == a.entries@.len(),
                        forall|j: int| 0 <= j < a.entries@.len() ==> #[trigger] va[j] == (a.entries@[j].0@, a.entries@[j].1@),
                        forall|j: int| 0 <= j < i ==> #[trigger] lookup(vb, va[j].0) is Some
                            && lookup(va, va[j].0) is Some
                            && meaning(lookup(va, va[j].0).unwrap()) == meaning(lookup(vb, va[j].0).unwrap()),
                    decreases a.entries.len() - i,
                {
                    let ia = a.find_string(&a.entries[i].0);
                    let ib = b.find_string(&a.entries[i].0);
                    proof {
                        lemma_lookup_some(va, va[i as int].0);
                    }
                    match (ia, ib) {
                        (Some(x), Some(y)) => {
                            proof {
                                assert(self->Object_0 == *a);
                                assert(decreases_to!(*self => self->Object_0));
                                assert(decreases_to!(*a => a.entries));
                                assert(decreases_to!(a.entries => a.entries@));
                                assert(decreases_to!(a.entries@ => a.entries@[x as int]));
                                assert(decreases_to!(a.entries@[x as int] => a.entries@[x as int].1));
                                lemma_entries_view(b.entries@);
                            }
                            if !a.entries[x].1.same_value(&b.entries[y].1) {
                                proof {
                                    lemma_lookup_meaning(va, va[i as int].0);
                                    lemma_lookup_meaning(vb, va[i as int].0);
                                    assert(entries_meaning(va)[va[i as int].0] != entries_meaning(vb)[va[i as int].0]);
                                    assert(meaning(self@) == Value::Obj(entries_meaning(va)));
                                    assert(meaning(other@) == Value::Obj(entries_meaning(vb)));
                                }
                                return false;
                            }
                        },
                        (Some(x), None) => {
                            proof {
                                lemma_lookup_meaning(va, va[i as int].0);
                                lemma_lookup_meaning(vb, va[i as int].0);
                                assert(entries_meaning(va).contains_key(va[i as int].0));
                                assert(!entries_meaning(vb).contains_key(va[i as int].0));
                                assert(meaning(self@) == Value::Obj(entries_meaning(va)));
                                assert(meaning(other@) == Value::Obj(entries_meaning(vb)));
                            }
                            return false;
                        },
                        (None, _) => {
                            proof {
                                assert(va[i as int].0 == va[i as int].0);
                            }
                        },
                    }
                    i += 1;
                }
                if a.entries.len() == 0 && b.entries.len() != 0 {
                    proof {
                        lemma_entries_view(b.entries@);
                        lemma_lookup_some(vb, vb[0].0);
                        lemma_lookup_meaning(vb, vb[0].0);
                        lemma_lookup_meaning(va, vb[0].0);
                        assert(meaning(self@) == Value::Obj(entries_meaning(va)));
                        assert(meaning(other@) == Value::Obj(entries_meaning(vb)));
                    }
                    return false;
                }
                let mut k: usize = 0;
                while k < b.entries.len()
                    invariant
                        *self == AllayData::Object(*a),
                        *other == AllayData::Object(*b),
                        va == a.view(),
                        vb == b.view(),
                        k <= b.entries@.len(),
                        vb.len() == b.entries@.len(),
                        forall|j: int| 0 <= j < b.entries@.len() ==> #[trigger] vb[j] == (b.entries@[j].0@, b.entries@[j].1@),
                        forall|j: int| 0 <= j < k ==> #[trigger] lookup(va, vb[j].0) is Some,
                    decreases b.entries.len() - k,
                {
                    proof {
                        lemma_entries_view(b.entries@);
                    }
                    if !a.contains_key(b.entries[k].0.as_str()) {
                        proof {
                            lemma_lookup_some(vb, vb[k as int].0);
                            lemma_lookup_meaning(vb, vb[k as int].0);
                            assert(entries_meaning(vb).contains_key(vb[k as int].0));
                            lemma_lookup_meaning(va, vb[k as int].0);
                            assert(meaning(self@) == Value::Obj(entries_meaning(va)));
                            assert(meaning(other@) == Value::Obj(entries_meaning(vb)));
                        }
                        return false;
                    }
                    proof {
                        lemma_lookup_meaning(va, vb[k as int].0);
                    }
                    k += 1;
                }
                proof {
                    let ma = entries_meaning(va);
                    let mb = entries_meaning(vb);
                    assert forall|key: Seq<char>| ma.contains_key(key) <==> mb.contains_key(key) by {
                        lemma_lookup_meaning(va, key);
                        lemma_lookup_meaning(vb, key);
                        lemma_lookup_some(va, key);
                        lemma_lookup_some(vb, key);
                        if lookup(va, key) is Some {
                            let j = choose|j: int| 0 <= j < va.len() && #[trigger] va[j].0 == key;
                            assert(lookup(vb, va[j].0) is Some);
                        }
                        if lookup(vb, key) is Some {
                            let j = choose|j: int| 0 <= j < vb.len() && #[trigger] vb[j].0 == key;
                            assert(lookup(va, vb[j].0) is Some);
                        }
                    }
                    assert forall|key: Seq<char>| ma.contains_key(key) implies ma[key] == mb[key] by {
                        lemma_lookup_meaning(va, key);
                        lemma_lookup_meaning(vb, key);
                        lemma_lookup_some(va, key);
                        let j = choose|j: int| 0 <= j < va.len() && #[trigger] va[j].0 == key;
                        assert(meaning(lookup(va, va[j].0).unwrap()) == meaning(lookup(vb, va[j].0).unwrap()));
                    }
                    assert(ma =~= mb);
                }
                true
            },
            _ => false,
        }
    }
}

/// Appends the characters of a string.
fn push_text(out: &mut Vec<char>, s: &str)
    ensures
        final(out)@ == old(out)@ + s@,
{
    let cs = chars_of(s);
    let mut k: usize = 0;
    let ghost start = out@;
    while k < cs.len()
        invariant
            k <= cs@.len(),
            cs@ == s@,
            out@ == start + cs@.subrange(0, k as int),
        decreases cs.len() - k,
    {
        out.push(cs[k]);
        k += 1;
        assert(out@ =~= start + cs@.subrange(0, k as int));
    }
    assert(cs@.subrange(0, cs@.len() as int) =~= cs@);
}

impl AllayData {
    /// Appends the text of the value.
    fn render_into(&self, out: &mut Vec<char>)
        ensures
            final(out)@ == old(out)@ + render_text(self@),
        decreases self,
    {
        match self {
            AllayData::Int(i) => {
                let t = int_to_text(*i);
                let ghost start = out@;
                let mut k: usize = 0;
                while k < t.len()
                    invariant
                        k <= t@.len(),
                        out@ == start + t@.subrange(0, k as int),
                    decreases t.len() - k,
                {
                    out.push(t[k]);
                    k += 1;
                    assert(out@ =~= start + t@.subrange(0, k as int));
                }
                assert(t@.subrange(0, t@.len() as int) =~= t@);
            },
            AllayData::Bool(b) => {
                let ghost start = out@;
                if *b {
                    out.push('t');
                    out.push('r');
                    out.push('u');
                    out.push('e');
                    assert(out@ =~= start + seq!['t', 'r', 'u', 'e']);
                } else {
                    out.push('f');
                    out.push('a');
                    out.push('l');
                    out.push('s');
                    out.push('e');
                    assert(out@ =~= start + seq!['f', 'a', 'l', 's', 'e']);
                }
            },
            AllayData::String(s) => {
                push_text(out, s.as_str());
            },
            AllayData::List(v) => {
                let ghost start = out@;
                out.push('[');
                proof {
                    lemma_list_view(v@);
                }
                let mut i: usize = 0;
                while i < v.len()
                    invariant
                        *self == AllayData::List(*v),
                        i <= v@.len(),
                        list_view(v@).len() == v@.len(),
                        forall|j: int| 0 <= j < v@.len() ==> #[trigger] list_view(v@)[j] == v@[j]@,
                        out@ == start + seq!['['] + render_items(list_view(v@).subrange(0, i as int)),
                    decreases v.len() - i,
                {
                    let ghost before = out@;
                    if i > 0 {
                        out.push(',');
                        out.push(' ');
                    }
                    proof {
                        assert(self->List_0 == *v);
                        assert(decreases_to!(*self => self->List_0));
                        assert(decreases_to!(*v => v@));
                        assert(decreases_to!(v@ => v@[i as int]));
                    }
                    v[i].render_into(out);
                    proof {
                        let sub = list_view(v@).subrange(0, i + 1);
                        assert(sub.drop_last() =~= list_view(v@).subrange(0, i as int));
                        if i == 0 {
                            assert(render_items(sub) == render_text(sub[0]));
                            assert(out@ =~= start + seq!['['] + render_items(sub));
                        } else {
                            assert(out@ =~= start + seq!['['] + render_items(sub));
                        }
                    }
                    i += 1;
                }
                out.push(']');
                assert(list_view(v@).subrange(0, v@.len() as int) =~= list_view(v@));
                assert(out@ =~= start + render_text(self@));
            },
            AllayData::Object(o) => {
                let ghost start = out@;
                out.push('{');
                proof {
                    lemma_entries_view(o.entries@);
                }
                let ghost ev = o.view();
                let mut i: usize = 0;
                while i < o.entries.len()
                    invariant
                        *self == AllayData::Object(*o),
                        ev == o.view(),
                        i <= o.entries@.len(),
                        ev.len() == o.entries@.len(),
                        forall|j: int| 0 <= j < o.entries@.len() ==> #[trigger] ev[j] == (o.entries@[j].0@, o.entries@[j].1@),
                        out@ == start + seq!['{'] + render_entries(ev.subrange(0, i as int)),
                    decreases o.entries.len() - i,
                {
                    if i > 0 {
                        out.push(',');
                        out.push(' ');
                    }
                    push_text(out, o.entries[i].0.as_str());
                    out.push(':');
                    out.push(' ');
                    proof {
                        assert(self->Object_0 == *o);
                        assert(decreases_to!(*self => self->Object_0));
                        assert(decreases_to!(*o => o.entries));
                        assert(decreases_to!(o.entries => o.entries@));
                        assert(decreases_to!(o.entries@ => o.entries@[i as int]));
                        assert(decreases_to!(o.entries@[i as int] => o.entries@[i as int].1));
                    }
                    o.entries[i].1.render_into(out);
                    proof {
                        let sub = ev.subrange(0, i + 1);
                        assert(sub.drop_last() =~= ev.subrange(0, i as int));
                        assert(sub.last() == ev[i as int]);
                        assert(out@ =~= start + seq!['{'] + render_entries(sub));
                    }
                    i += 1;
                }
                out.push('}');
                assert(ev.subrange(0, ev.len() as int) =~= ev);
                assert(out@ =~= start + render_text(self@));
            },
            AllayData::Null => {
                let ghost start = out@;
                out.push('n');
                out.push('u');
                out.push('l');
                out.push('l');
                assert(out@ =~= start + seq!['n', 'u', 'l', 'l']);
            },
        }
    }

    /// The text of the value in a rendered page: integers in decimal,
    /// booleans as `true` or `false`, strings as they are, lists as
    /// `[a, b]`, objects as `{k: v}` and null as `null`.
    pub fn render(&self) -> (r: String)
        ensures
            r@ == render_text(self@),
    {
        let mut out: Vec<char> = Vec::new();
        self.render_into(&mut out);
        assert(out@ =~= render_text(self@));
        string_from_chars(out.as_slice())
    }
}

impl Default for AllayData {
    fn default() -> (r: AllayData)
        ensures
            r@ == DataView::Null,
    {
        AllayData::Null
    }
}

impl From<String> for AllayData {
    fn from(s: String) -> (r: AllayData) {
        AllayData::String(s)
    }
}

impl vstd::std_specs::convert::FromSpecImpl<String> for AllayData {
    open spec fn obeys_from_spec() -> bool {
        true
    }

    open spec fn from_spec(s: String) -> AllayData {
        AllayData::String(s)
    }
}

impl<'a> From<&'a str> for AllayData {
    fn from(s: &'a str) -> (r: AllayData)
        ensures
            r@ == DataView::Str(s@),
    {
        AllayData::String(s.to_owned())
    }
}

impl<'a> vstd::std_specs::convert::FromSpecImpl<&'a str> for AllayData {
    open spec fn obeys_from_spec() -> bool {
        false
    }

    open spec fn from_spec(s: &'a str) -> AllayData {
        AllayData::Null
    }
}

impl From<i32> for AllayData {
    fn from(i: i32) -> (r: AllayData) {
        AllayData::Int(i as i64)
    }
}

impl vstd::std_specs::convert::FromSpecImpl<i32> for AllayData {
    open spec fn obeys_from_spec() -> bool {
        true
    }

    open spec fn from_spec(i: i32) -> AllayData {
        AllayData::Int(i as i64)
    }
}

impl From<i64> for AllayData {
    fn from(i: i64) -> (r: AllayData) {
        AllayData::Int(i)
    }
}

impl vstd::std_specs::convert::FromSpecImpl<i64> for AllayData {
    open spec fn obeys_from_spec() -> bool {
        true
    }

    open spec fn from_spec(i: i64) -> AllayData {
        AllayData::Int(i)
    }
}

impl From<bool> for AllayData {
    fn from(b: bool) -> (r: AllayData) {
        AllayData::Bool(b)
    }
}

impl vstd::std_specs::convert::FromSpecImpl<bool> for AllayData {
    open spec fn obeys_from_spec() -> bool {
        true
    }

    open spec fn from_spec(b: bool) -> AllayData {
        AllayData::Bool(b)
    }
}

impl From<AllayList> for AllayData {
    fn from(v: AllayList) -> (r: AllayData) {
        AllayData::List(v)
    }
}

impl vstd::std_specs::convert::FromSpecImpl<AllayList> for AllayData {
    open spec fn obeys_from_spec() -> bool {
        true
    }

    open spec fn from_spec(v: AllayList) -> AllayData {
        AllayData::List(v)
    }
}

impl From<AllayObject> for AllayData {
    fn from(o: AllayObject) -> (r: AllayData) {
        AllayData::Object(o)
    }
}

impl vstd::std_specs::convert::FromSpecImpl<AllayObject> for AllayData {
    open spec fn obeys_from_spec() -> bool {
        true
    }

    open spec fn from_spec(o: AllayObject) -> AllayData {
        AllayData::Object(o)
    }
}

impl From<()> for AllayData {
    fn from(u: ()) -> (r: AllayData) {
        AllayData::Null
    }
}

impl vstd::std_specs::convert::FromSpecImpl<()> for AllayData {
    open spec fn obeys_from_spec() -> bool {
        true
    }

    open spec fn from_spec(u: ()) -> AllayData {
        AllayData::Null
    }
}

impl AllayObject {
    /// A deep copy of the object.
    pub fn duplicate(&self) -> (r: AllayObject)
        ensures
            r.view() == self.view(),
    {
        let mut out: Vec<(String, AllayData)> = Vec::new();
        let mut i: usize = 0;
        proof {
            lemma_entries_view(self.entries@);
        }
        while i < self.entries.len()
            invariant
                i <= self.entries@.len(),
                out@.len() == i,
                forall|j: int| 0 <= j < i ==> (#[trigger] out@[j]).0@ == self.entries@[j].0@ && out@[j].1@
                    == self.entries@[j].1@,
            decreases self.entries.len() - i,
        {
            let k = self.entries[i].0.clone();
            let v = self.entries[i].1.duplicate();
            out.push((k, v));
            i += 1;
        }
        proof {
            lemma_entries_view(out@);
            assert(entries_view(out@) =~= entries_view(self.entries@));
        }
        AllayObject { entries: out }
    }
}

/// A deep copy of a list.
pub fn duplicate_list(v: &AllayList) -> (r: AllayList)
    ensures
        list_view(r@) == list_view(v@),
{
    let mut out: Vec<AllayData> = Vec::new();
    let mut i: usize = 0;
    proof {
        lemma_list_view(v@);
    }
    while i < v.len()
        invariant
            i <= v@.len(),
            out@.len() == i,
            forall|j: int| 0 <= j < i ==> #[trigger] out@[j]@ == v@[j]@,
        decreases v.len() - i,
    {
        out.push(v[i].duplicate());
        i += 1;
    }
    proof {
        lemma_list_view(out@);
        assert(list_view(out@) =~= list_view(v@));
    }
    out
}


/// Setting a key of an object: the key then has the new value, and every
/// other key keeps its value.
pub proof fn law_insert_then_get(s: Seq<(Seq<char>, DataView)>, k: Seq<char>, v: DataView, k2: Seq<char>)
    ensures
        lookup(put(s, k, v), k) == Some(v),
        k2 != k ==> lookup(put(s, k, v), k2) == lookup(s, k2),
{
    lemma_put_meaning(s, k, v);
    if k2 != k {
        lemma_last_index(s, k);
        lemma_last_index(s, k2);
        let u = put(s, k, v);
        lemma_last_index(u, k2);
        match last_index(s, k) {
            Some(i) => {
                match last_index(s, k2) {
                    Some(j) => {
                        assert(u[j] == s[j]);
                        assert forall|x: int| j < x < u.len() implies u[x].0 != k2 by {
                            if x != i {
                                assert(u[x] == s[x]);
                            }
                        }
                        lemma_last_index_at(u, k2, j);
                    },
                    None => {
                        if last_index(u, k2) is Some {
                            let j = last_index(u, k2).unwrap();
                            if j != i {
                                assert(u[j] == s[j]);
                            }
                        }
                    },
                }
            },
            None => {
                assert(u.drop_last() =~= s);
            },
        }
    }
}


/// The text of a list: `[`, the texts of its values separated by `", "`,
/// then `]`. An empty list is `[]`, a list of one value is that value's text
/// in brackets, and one more value adds `", "` and its text before the
/// closing bracket.
pub proof fn law_render_list(s: Seq<DataView>, x: DataView)
    ensures
        render_text(DataView::List(Seq::empty())) == seq!['[', ']'],
        render_text(DataView::List(seq![x])) == seq!['['] + render_text(x) + seq![']'],
        s.len() > 0 ==> render_text(DataView::List(s.push(x))) == render_text(DataView::List(s)).drop_last()
            + seq![',', ' '] + render_text(x) + seq![']'],
{
    assert(seq!['['] + render_items(Seq::<DataView>::empty()) + seq![']'] =~= seq!['[', ']']);
    assert(seq![x][0] == x);
    if s.len() > 0 {
        let t = s.push(x);
        assert(t.drop_last() =~= s);
        assert(t.last() == x);
        let r = seq!['['] + render_items(s) + seq![']'];
        assert(r.drop_last() =~= seq!['['] + render_items(s));
        assert(seq!['['] + render_items(t) + seq![']'] =~= r.drop_last() + seq![',', ' '] + render_text(x) + seq![']']);
    }
}

/// The text of an object: `{`, its entries as `key: value` separated by
/// `", "`, then `}`.
pub proof fn law_render_object(s: Seq<(Seq<char>, DataView)>, k: Seq<char>, x: DataView)
    ensures
        render_text(DataView::Obj(Seq::empty())) == seq!['{', '}'],
        render_text(DataView::Obj(seq![(k, x)])) == seq!['{'] + k + seq![':', ' '] + render_text(x) + seq!['}'],
        s.len() > 0 ==> render_text(DataView::Obj(s.push((k, x)))) == render_text(DataView::Obj(s)).drop_last()
            + seq![',', ' '] + k + seq![':', ' '] + render_text(x) + seq!['}'],
{
    assert(seq!['{'] + render_entries(Seq::<(Seq<char>, DataView)>::empty()) + seq!['}'] =~= seq!['{', '}']);
    assert(seq![(k, x)][0] == (k, x));
    assert(seq!['{'] + render_entries(seq![(k, x)]) + seq!['}'] =~= seq!['{'] + k + seq![':', ' '] + render_text(x)
        + seq!['}']);
    if s.len() > 0 {
        let t = s.push((k, x));
        assert(t.drop_last() =~= s);
        assert(t.last() == (k, x));
        let r = seq!['{'] + render_entries(s) + seq!['}'];
        assert(r.drop_last() =~= seq!['{'] + render_entries(s));
        assert(seq!['{'] + render_entries(t) + seq!['}'] =~= r.drop_last() + seq![',', ' '] + k + seq![':', ' ']
            + render_text(x) + seq!['}']);
    }
}

} // verus!
