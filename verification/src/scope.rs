//! The variable scopes of a page: its own data and the data it inherits,
//! the stack of local scopes opened by `with`, local variables and the
//! parameters given by the including page.

use crate::ast::GetField;
use crate::ast::{parts_view, PartV};
use crate::data::{
    entries_meaning, law_insert_then_get, lemma_put_meaning, meaning, Value,
    duplicate_list, lemma_entries_view, lemma_list_view, list_view, lookup, put, AllayData, AllayList,
    AllayObject, DataView,
};
use crate::error::{type_error, IErr, InterpretError};
use vstd::prelude::*;

verus! {

/// A variable defined in a template, like `$item` of `for $item: .items`,
/// or the value a `with` command opens.
#[derive(Debug)]
pub struct LocalVar {
    pub data: AllayData,
}

impl LocalVar {
    pub fn create(data: AllayData) -> (r: LocalVar)
        ensures
            r.data@ == data@,
    {
        LocalVar { data }
    }
}

/// The parameters a page is given by the page that includes it: a list,
/// or null for a page nobody included.
#[derive(Debug)]
pub struct ParamVar {
    pub data: AllayData,
}

impl ParamVar {
    /// The parameters `data`, as a list value.
    pub fn create(data: AllayList) -> (r: ParamVar)
        ensures
            r.data@ == DataView::List(list_view(data@)),
    {
        ParamVar { data: AllayData::List(data) }
    }

    /// No parameters: null.
    pub fn none() -> (r: ParamVar)
        ensures
            r.data@ == DataView::Null,
    {
        ParamVar { data: AllayData::Null }
    }

    /// The parameters.
    pub fn get_data(&self) -> (r: AllayData)
        ensures
            r@ == self.data@,
    {
        self.data.duplicate()
    }
}

/// A local scope, opened by `with`: its value and its local variables.
#[derive(Debug)]
pub struct LocalScope {
    pub this: LocalVar,
    pub locals: AllayObject,
}

impl LocalScope {
    pub fn new(var: LocalVar) -> (r: LocalScope)
        ensures
            r.view() == (LocalV { this: var.data@, locals: Seq::empty() }),
    {
        LocalScope { this: var, locals: AllayObject::new() }
    }

    pub open spec fn view(&self) -> LocalV {
        LocalV { this: self.this.data@, locals: self.locals.view() }
    }

    /// The value of the scope.
    pub fn this_data(&self) -> (r: AllayData)
        ensures
            r@ == self.this.data@,
    {
        self.this.data.duplicate()
    }
}

/// A local scope as plain data.
pub struct LocalV {
    pub this: DataView,
    pub locals: Seq<(Seq<char>, DataView)>,
}

/// The scope of a page as plain data.
pub struct ScopeV {
    pub owned: Seq<(Seq<char>, DataView)>,
    pub inherited: Option<Seq<(Seq<char>, DataView)>>,
    pub subs: Seq<LocalV>,
    pub locals: Seq<(Seq<char>, DataView)>,
    pub param: DataView,
}

/// The top level scope of a page, usually from the parent template or the
/// front matter. Its own data has priority over what it inherits.
#[derive(Debug)]
pub struct PageScope {
    owned: AllayObject,
    inherited: Option<AllayObject>,
    sub_stack: Vec<LocalScope>,
    locals: AllayObject,
    param: ParamVar,
}

/// The views of a stack of local scopes.
pub open spec fn subs_view(s: Seq<LocalScope>) -> Seq<LocalV> {
    Seq::new(s.len(), |i: int| s[i].view())
}

/// `base` with each entry of `extra` set in turn.
pub open spec fn merge_entries(base: Seq<(Seq<char>, DataView)>, extra: Seq<(Seq<char>, DataView)>) -> Seq<(Seq<char>, DataView)>
    decreases extra.len(),
{
    if extra.len() == 0 {
        base
    } else {
        put(merge_entries(base, extra.drop_last()), extra.last().0, extra.last().1)
    }
}

/// The value of `this` in the page scope: what it inherits, with its own
/// data set over it.
pub open spec fn page_data(sc: ScopeV) -> DataView {
    DataView::Obj(
        merge_entries(
            match sc.inherited {
                Some(i) => i,
                None => Seq::empty(),
            },
            sc.owned,
        ),
    )
}

/// The value of `this` in the current scope: that of the innermost local
/// scope, or of the page.
pub open spec fn this_data(sc: ScopeV) -> DataView {
    if sc.subs.len() == 0 {
        page_data(sc)
    } else {
        sc.subs.last().this
    }
}

/// The value of a local variable: the innermost local scope that defines
/// it wins; the page's own locals come last.
pub open spec fn local_in(subs: Seq<LocalV>, locals: Seq<(Seq<char>, DataView)>, id: Seq<char>) -> Option<DataView>
    decreases subs.len(),
{
    if subs.len() == 0 {
        lookup(locals, id)
    } else {
        match lookup(subs.last().locals, id) {
            Some(d) => Some(d),
            None => local_in(subs.drop_last(), locals, id),
        }
    }
}

pub open spec fn local_of(sc: ScopeV, id: Seq<char>) -> Option<DataView> {
    local_in(sc.subs, sc.locals, id)
}

/// One field step on a value: an index into a list, or a key of an object
/// (null when the key is absent).
pub open spec fn field_once(cur: DataView, part: PartV) -> Result<DataView, IErr> {
    match part {
        PartV::Index(k) => match cur {
            DataView::List(l) => if k < l.len() {
                Ok(l[k as int])
            } else {
                Err(IErr::IndexOut(k))
            },
            _ => Err(IErr::Type("not a list"@)),
        },
        PartV::Name(n) => match cur {
            DataView::Obj(o) => Ok(
                match lookup(o, n) {
                    Some(d) => d,
                    None => DataView::Null,
                },
            ),
            _ => Err(IErr::Type("not an object"@)),
        },
    }
}

/// The field steps from the `i`-th on, taken on `cur`.
pub open spec fn fields_from(cur: DataView, parts: Seq<PartV>, i: int) -> Result<DataView, IErr>
    decreases parts.len() - i,
{
    if i >= parts.len() || i < 0 {
        Ok(cur)
    } else {
        match field_once(cur, parts[i]) {
            Ok(n) => fields_from(n, parts, i + 1),
            Err(e) => Err(e),
        }
    }
}

/// Field steps on the page scope: the first step is a key, looked up in the
/// page's own data, then in what it inherits (null when it inherits
/// nothing: the further steps are then not taken).
pub open spec fn page_field(sc: ScopeV, parts: Seq<PartV>) -> Result<DataView, IErr> {
    if parts.len() == 0 {
        Err(IErr::FieldNotFound("Empty field"@))
    } else {
        match parts[0] {
            PartV::Index(_) => Err(IErr::Type("Page scope is not a list"@)),
            PartV::Name(n) => match lookup(sc.owned, n) {
                Some(d) => fields_from(d, parts, 1),
                None => match sc.inherited {
                    Some(inh) => fields_from(
                        match lookup(inh, n) {
                            Some(d) => d,
                            None => DataView::Null,
                        },
                        parts,
                        1,
                    ),
                    None => Ok(DataView::Null),
                },
            },
        }
    }
}

/// Field steps on `this` of the current scope.
pub open spec fn this_field(sc: ScopeV, parts: Seq<PartV>) -> Result<DataView, IErr> {
    if sc.subs.len() == 0 {
        page_field(sc, parts)
    } else {
        fields_from(sc.subs.last().this, parts, 0)
    }
}

/// A value as a result, with an interpretation error as plain data.
pub open spec fn result_view(r: Result<AllayData, InterpretError>) -> Result<DataView, IErr> {
    match r {
        Ok(d) => Ok(d@),
        Err(e) => Err(e.view()),
    }
}

/// One field step on a value.
pub fn get_field_once(cur: &AllayData, part: &GetField) -> (r: Result<AllayData, InterpretError>)
    ensures
        result_view(r) == field_once(cur@, part.view()),
{
    match part {
        GetField::Index(i) => match cur {
            AllayData::List(l) => {
                proof {
                    lemma_list_view(l@);
                }
                if *i < l.len() {
                    Ok(l[*i].duplicate())
                } else {
                    Err(InterpretError::IndexOutOfBounds(*i))
                }
            },
            _ => Err(type_error("not a list")),
        },
        GetField::Name(n) => match cur {
            AllayData::Object(o) => match o.get(n.as_str()) {
                Some(d) => Ok(d.duplicate()),
                None => Ok(AllayData::Null),
            },
            _ => Err(type_error("not an object")),
        },
    }
}

/// The field steps from the `from`-th on, taken on `cur`.
pub fn get_fields_from(cur: AllayData, parts: &Vec<GetField>, from: usize) -> (r: Result<AllayData, InterpretError>)
    ensures
        result_view(r) == fields_from(cur@, parts_view(parts@), from as int),
{
    proof {
        lemma_parts_view(parts@);
    }
    let ghost pv = parts_view(parts@);
    let mut i = from;
    let mut c = cur;
    if i > parts.len() {
        return Ok(c);
    }
    while i < parts.len()
        invariant
            i <= parts@.len(),
            pv == parts_view(parts@),
            pv.len() == parts@.len(),
            forall|j: int| 0 <= j < parts@.len() ==> #[trigger] pv[j] == parts@[j].view(),
            fields_from(cur@, pv, from as int) == fields_from(c@, pv, i as int),
        decreases parts.len() - i,
    {
        match get_field_once(&c, &parts[i]) {
            Ok(n) => {
                c = n;
            },
            Err(e) => return Err(e),
        }
        i += 1;
    }
    Ok(c)
}

pub proof fn lemma_parts_view(s: Seq<GetField>)
    ensures
        parts_view(s).len() == s.len(),
        forall|i: int| 0 <= i < s.len() ==> #[trigger] parts_view(s)[i] == s[i].view(),
    decreases s.len(),
{
    if s.len() > 0 {
        lemma_parts_view(s.drop_last());
    }
}

impl PageScope {
    pub closed spec fn view(&self) -> ScopeV {
        ScopeV {
            owned: self.owned.view(),
            inherited: match self.inherited {
                Some(o) => Some(o.view()),
                None => None,
            },
            subs: subs_view(self.sub_stack@),
            locals: self.locals.view(),
            param: self.param.data@,
        }
    }

    /// An empty scope, whose parameters are null.
    pub fn new() -> (r: PageScope)
        ensures
            r.view() == (ScopeV {
                owned: Seq::empty(),
                inherited: None,
                subs: Seq::empty(),
                locals: Seq::empty(),
                param: DataView::Null,
            }),
    {
        let r = PageScope {
            owned: AllayObject::new(),
            inherited: None,
            sub_stack: Vec::new(),
            locals: AllayObject::new(),
            param: ParamVar::none(),
        };
        proof {
            assert(subs_view(r.sub_stack@) =~= Seq::<LocalV>::empty());
        }
        r
    }

    /// The scope of an included page: it inherits `inherited` and is given
    /// `params`.
    pub fn new_from(inherited: AllayObject, params: AllayList) -> (r: PageScope)
        ensures
            r.view() == (ScopeV {
                owned: Seq::empty(),
                inherited: Some(inherited.view()),
                subs: Seq::empty(),
                locals: Seq::empty(),
                param: DataView::List(list_view(params@)),
            }),
    {
        let r = PageScope {
            owned: AllayObject::new(),
            inherited: Some(inherited),
            sub_stack: Vec::new(),
            locals: AllayObject::new(),
            param: ParamVar::create(params),
        };
        proof {
            assert(subs_view(r.sub_stack@) =~= Seq::<LocalV>::empty());
        }
        r
    }

    /// Sets a key of the page's own data.
    pub fn add_key(&mut self, key: String, value: AllayData)
        ensures
            final(self).view() == (ScopeV { owned: put(old(self).view().owned, key@, value@), ..old(self).view() }),
    {
        self.owned.insert(key, value);
    }

    /// Sets each key of `data` in the page's own data, in order.
    pub fn merge_data(&mut self, data: &AllayObject)
        ensures
            final(self).view() == (ScopeV {
                owned: merge_entries(old(self).view().owned, data.view()),
                ..old(self).view()
            }),
    {
        proof {
            lemma_entries_view(data.entries@);
        }
        let ghost start = self.view();
        let mut i: usize = 0;
        while i < data.entries.len()
            invariant
                i <= data.entries@.len(),
                entries_view_len(data),
                forall|j: int| 0 <= j < data.entries@.len() ==> #[trigger] data.view()[j] == (
                    data.entries@[j].0@,
                    data.entries@[j].1@,
                ),
                self.view() == (ScopeV {
                    owned: merge_entries(start.owned, data.view().subrange(0, i as int)),
                    ..start
                }),
            decreases data.entries.len() - i,
        {
            let k = data.entries[i].0.clone();
            let v = data.entries[i].1.duplicate();
            self.owned.insert(k, v);
            proof {
                let sub = data.view().subrange(0, i + 1);
                assert(sub.drop_last() =~= data.view().subrange(0, i as int));
            }
            i += 1;
        }
        assert(data.view().subrange(0, data.entries@.len() as int) =~= data.view());
    }

    /// Opens a local scope on `var`.
    pub fn create_sub_scope(&mut self, var: LocalVar)
        ensures
            final(self).view() == (ScopeV {
                subs: old(self).view().subs.push(LocalV { this: var.data@, locals: Seq::empty() }),
                ..old(self).view()
            }),
    {
        let ghost old_stack = self.sub_stack@;
        self.sub_stack.push(LocalScope::new(var));
        assert(subs_view(self.sub_stack@) =~= subs_view(old_stack).push(
            LocalV { this: var.data@, locals: Seq::empty() },
        ));
    }

    /// Closes the innermost local scope, giving it back.
    pub fn exit_sub_scope(&mut self) -> (r: Option<LocalScope>)
        ensures
            old(self).view().subs.len() == 0 ==> r is None && final(self).view() == old(self).view(),
            old(self).view().subs.len() > 0 ==> (r matches Some(l) && l.view() == old(self).view().subs.last()
                && final(self).view() == (ScopeV { subs: old(self).view().subs.drop_last(), ..old(self).view() })),
    {
        let ghost old_stack = self.sub_stack@;
        let r = self.sub_stack.pop();
        proof {
            if old_stack.len() > 0 {
                assert(subs_view(self.sub_stack@) =~= subs_view(old_stack).drop_last());
            } else {
                assert(self.sub_stack@ =~= old_stack);
            }
        }
        r
    }

    /// Defines a local variable in the current scope: the innermost local
    /// scope, or the page.
    pub fn create_local(&mut self, id: String, data: AllayData)
        ensures
            old(self).view().subs.len() == 0 ==> final(self).view() == (ScopeV {
                locals: put(old(self).view().locals, id@, data@),
                ..old(self).view()
            }),
            old(self).view().subs.len() > 0 ==> final(self).view() == (ScopeV {
                subs: old(self).view().subs.update(
                    old(self).view().subs.len() - 1,
                    LocalV {
                        this: old(self).view().subs.last().this,
                        locals: put(old(self).view().subs.last().locals, id@, data@),
                    },
                ),
                ..old(self).view()
            }),
    {
        let ghost old_stack = self.sub_stack@;
        match self.sub_stack.pop() {
            None => {
                self.locals.insert(id, data);
            },
            Some(mut top) => {
                top.locals.insert(id, data);
                self.sub_stack.push(top);
                assert(subs_view(self.sub_stack@) =~= subs_view(old_stack).update(
                    old_stack.len() - 1,
                    LocalV { this: old_stack.last().this.data@, locals: put(old_stack.last().locals.view(), id@, data@) },
                ));
            },
        }
    }

    /// The value of a local variable, if it is defined.
    pub fn get_local(&self, id: &str) -> (r: Option<&AllayData>)
        ensures
            match r {
                Some(d) => local_of(self.view(), id@) == Some(d@),
                None => local_of(self.view(), id@) is None,
            },
    {
        let ghost sv = self.view();
        let mut i = self.sub_stack.len();
        assert(sv.subs.subrange(0, i as int) =~= sv.subs);
        while i > 0
            invariant
                i <= self.sub_stack@.len(),
                sv == self.view(),
                local_of(sv, id@) == local_in(sv.subs.subrange(0, i as int), sv.locals, id@),
            decreases i,
        {
            let ghost sub = sv.subs.subrange(0, i as int);
            assert(sub.drop_last() =~= sv.subs.subrange(0, i - 1));
            assert(sub.last() == self.sub_stack@[i - 1].view());
            match self.sub_stack[i - 1].locals.get(id) {
                Some(d) => return Some(d),
                None => {},
            }
            i -= 1;
        }
        self.locals.get(id)
    }

    /// The parameters of the page.
    pub fn get_param(&self) -> (r: &ParamVar)
        ensures
            r.data@ == self.view().param,
    {
        &self.param
    }

    /// The value of `this` in the page scope.
    pub fn page_data(&self) -> (r: AllayData)
        ensures
            r@ == page_data(self.view()),
    {
        let mut merged = match &self.inherited {
            Some(i) => i.duplicate(),
            None => AllayObject::new(),
        };
        let ghost base = merged.view();
        proof {
            lemma_entries_view(self.owned.entries@);
        }
        let mut i: usize = 0;
        while i < self.owned.entries.len()
            invariant
                i <= self.owned.entries@.len(),
                entries_view_len(&self.owned),
                forall|j: int| 0 <= j < self.owned.entries@.len() ==> #[trigger] self.owned.view()[j] == (
                    self.owned.entries@[j].0@,
                    self.owned.entries@[j].1@,
                ),
                merged.view() == merge_entries(base, self.owned.view().subrange(0, i as int)),
            decreases self.owned.entries.len() - i,
        {
            let k = self.owned.entries[i].0.clone();
            let v = self.owned.entries[i].1.duplicate();
            merged.insert(k, v);
            proof {
                let sub = self.owned.view().subrange(0, i + 1);
                assert(sub.drop_last() =~= self.owned.view().subrange(0, i as int));
            }
            i += 1;
        }
        assert(self.owned.view().subrange(0, self.owned.entries@.len() as int) =~= self.owned.view());
        AllayData::Object(merged)
    }

    /// The value of `this` in the current scope.
    pub fn this_data(&self) -> (r: AllayData)
        ensures
            r@ == this_data(self.view()),
    {
        if self.sub_stack.len() == 0 {
            self.page_data()
        } else {
            self.sub_stack[self.sub_stack.len() - 1].this_data()
        }
    }

    /// Field steps on `this` of the current scope.
    pub fn this_field(&self, parts: &Vec<GetField>) -> (r: Result<AllayData, InterpretError>)
        ensures
            result_view(r) == this_field(self.view(), parts_view(parts@)),
    {
        proof {
            lemma_parts_view(parts@);
        }
        if self.sub_stack.len() > 0 {
            let d = self.sub_stack[self.sub_stack.len() - 1].this_data();
            return get_fields_from(d, parts, 0);
        }
        if parts.len() == 0 {
            return Err(InterpretError::FieldNotFound("Empty field".to_string()));
        }
        match &parts[0] {
            GetField::Index(_) => Err(type_error("Page scope is not a list")),
            GetField::Name(n) => match self.owned.get(n.as_str()) {
                Some(d) => get_fields_from(d.duplicate(), parts, 1),
                None => match &self.inherited {
                    Some(inh) => {
                        let d = match inh.get(n.as_str()) {
                            Some(d) => d.duplicate(),
                            None => AllayData::Null,
                        };
                        get_fields_from(d, parts, 1)
                    },
                    None => Ok(AllayData::Null),
                },
            },
        }
    }
}

impl LocalScope {
    /// A deep copy of the scope.
    pub fn duplicate(&self) -> (r: LocalScope)
        ensures
            r.view() == self.view(),
    {
        LocalScope { this: LocalVar { data: self.this.data.duplicate() }, locals: self.locals.duplicate() }
    }
}

impl PageScope {
    /// A deep copy of the scope.
    pub fn duplicate(&self) -> (r: PageScope)
        ensures
            r.view() == self.view(),
    {
        let mut subs: Vec<LocalScope> = Vec::new();
        let mut i: usize = 0;
        while i < self.sub_stack.len()
            invariant
                i <= self.sub_stack@.len(),
                subs@.len() == i,
                forall|j: int| 0 <= j < i ==> #[trigger] subs@[j].view() == self.sub_stack@[j].view(),
            decreases self.sub_stack.len() - i,
        {
            subs.push(self.sub_stack[i].duplicate());
            i += 1;
        }
        let r = PageScope {
            owned: self.owned.duplicate(),
            inherited: match &self.inherited {
                Some(o) => Some(o.duplicate()),
                None => None,
            },
            sub_stack: subs,
            locals: self.locals.duplicate(),
            param: ParamVar { data: self.param.data.duplicate() },
        };
        assert(subs_view(r.sub_stack@) =~= subs_view(self.sub_stack@));
        r
    }
}

/// The number of entries of an object is that of its view.
pub open spec fn entries_view_len(o: &AllayObject) -> bool {
    o.view().len() == o.entries@.len()
}


/// The page's own data has priority over what it inherits: a key the page
/// sets itself reads as the value it set, whatever it inherits.
pub proof fn law_own_key_first(sc: ScopeV, k: Seq<char>, v: DataView)
    requires
        sc.subs.len() == 0,
    ensures
        this_field(ScopeV { owned: put(sc.owned, k, v), ..sc }, seq![PartV::Name(k)]) == Ok::<DataView, IErr>(v),
{
    crate::data::law_insert_then_get(sc.owned, k, v, k);
}

/// Setting each entry of `extra` over `base` means `base` with the
/// entries of `extra` preferred.
pub proof fn lemma_merge_meaning(base: Seq<(Seq<char>, DataView)>, extra: Seq<(Seq<char>, DataView)>)
    ensures
        entries_meaning(merge_entries(base, extra)) == entries_meaning(base).union_prefer_right(entries_meaning(extra)),
    decreases extra.len(),
{
    if extra.len() == 0 {
        assert(entries_meaning(base).union_prefer_right(entries_meaning(extra)) =~= entries_meaning(base));
    } else {
        let d = extra.drop_last();
        lemma_merge_meaning(base, d);
        lemma_put_meaning(merge_entries(base, d), extra.last().0, extra.last().1);
        assert(entries_meaning(base).union_prefer_right(entries_meaning(extra)) =~= entries_meaning(base).union_prefer_right(
            entries_meaning(d),
        ).insert(extra.last().0, meaning(extra.last().1)));
    }
}

/// Adding a key to a page: the key then reads as the value added, even
/// when the page inherits it; every other key reads as before; and the
/// page's data is what it was with that key set.
pub proof fn law_add_key(sc: ScopeV, k: Seq<char>, v: DataView, parts: Seq<PartV>)
    ensures
        sc.subs.len() == 0 ==> this_field(ScopeV { owned: put(sc.owned, k, v), ..sc }, seq![PartV::Name(k)]) == Ok::<
            DataView,
            IErr,
        >(v),
        parts.len() > 0 && parts[0] is Name && parts[0]->Name_0 != k ==> page_field(
            ScopeV { owned: put(sc.owned, k, v), ..sc },
            parts,
        ) == page_field(sc, parts),
        meaning(page_data(ScopeV { owned: put(sc.owned, k, v), ..sc })) == match meaning(page_data(sc)) {
            Value::Obj(m) => Value::Obj(m.insert(k, meaning(v))),
            other => other,
        },
{
    if sc.subs.len() == 0 {
        law_own_key_first(sc, k, v);
    }
    if parts.len() > 0 && parts[0] is Name {
        law_insert_then_get(sc.owned, k, v, parts[0]->Name_0);
    }
    let inh = match sc.inherited {
        Some(i) => i,
        None => Seq::empty(),
    };
    lemma_merge_meaning(inh, put(sc.owned, k, v));
    lemma_merge_meaning(inh, sc.owned);
    lemma_put_meaning(sc.owned, k, v);
    assert(entries_meaning(inh).union_prefer_right(entries_meaning(sc.owned).insert(k, meaning(v))) =~= entries_meaning(
        inh,
    ).union_prefer_right(entries_meaning(sc.owned)).insert(k, meaning(v)));
}


/// A field step is an index into a list (an error past its end) or a key of
/// an object (null when the key is absent); and taking one more step after
/// a path is taking that step on what the path reached.
pub proof fn law_field_steps(
    l: Seq<DataView>,
    k: usize,
    o: Seq<(Seq<char>, DataView)>,
    n: Seq<char>,
    cur: DataView,
    parts: Seq<PartV>,
    p: PartV,
)
    ensures
        k < l.len() ==> fields_from(DataView::List(l), seq![PartV::Index(k)], 0) == Ok::<DataView, IErr>(l[k as int]),
        k >= l.len() ==> fields_from(DataView::List(l), seq![PartV::Index(k)], 0) == Err::<DataView, IErr>(
            IErr::IndexOut(k),
        ),
        lookup(o, n) matches Some(d) ==> fields_from(DataView::Obj(o), seq![PartV::Name(n)], 0) == Ok::<DataView, IErr>(d),
        lookup(o, n) is None ==> fields_from(DataView::Obj(o), seq![PartV::Name(n)], 0) == Ok::<DataView, IErr>(
            DataView::Null,
        ),
        fields_from(cur, parts.push(p), 0) == match fields_from(cur, parts, 0) {
            Ok(d) => field_once(d, p),
            Err(e) => Err(e),
        },
{
    assert(fields_from(l[k as int], seq![PartV::Index(k)], 1) == Ok::<DataView, IErr>(l[k as int]));
    let parts_n = seq![PartV::Name(n)];
    assert(parts_n[0] == PartV::Name(n));
    let got = match lookup(o, n) {
        Some(d) => d,
        None => DataView::Null,
    };
    assert(field_once(DataView::Obj(o), parts_n[0]) == Ok::<DataView, IErr>(got));
    assert(fields_from(got, parts_n, 1) == Ok::<DataView, IErr>(got));
    lemma_fields_push(cur, parts, p, 0);
}

proof fn lemma_fields_push(cur: DataView, parts: Seq<PartV>, p: PartV, i: int)
    requires
        0 <= i <= parts.len(),
    ensures
        fields_from(cur, parts.push(p), i) == match fields_from(cur, parts, i) {
            Ok(d) => field_once(d, p),
            Err(e) => Err(e),
        },
    decreases parts.len() - i,
{
    let t = parts.push(p);
    if i == parts.len() {
        assert(t[i] == p);
        match field_once(cur, p) {
            Ok(n) => assert(fields_from(n, t, i + 1) == Ok::<DataView, IErr>(n)),
            Err(_) => {},
        }
    } else {
        assert(t[i] == parts[i]);
        match field_once(cur, parts[i]) {
            Ok(n) => lemma_fields_push(n, parts, p, i + 1),
            Err(_) => {},
        }
    }
}

} // verus!
