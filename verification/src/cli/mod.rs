//! The command language: types, values, and the engine that runs
//! statements.

pub mod errors;
pub mod parsers;
pub mod tyck;
pub mod eval;
pub mod conv;
pub mod engine;
pub mod grammar;

use vstd::prelude::*;

use crate::feature::Feature;

verus! {

/// Type representation.
pub enum Type {
    Feature,
    Vec(Box<Type>),
    SetOf(Box<Type>),
    Tuple(Vec<Type>),
    Usize,
    /// Syntactic objects: lexical item tokens, sets of syntactic objects, and
    /// transferred objects `<SO, [F], {F}>`.
    SO,
}

/// The model of a type.
pub enum TypeModel {
    Feature,
    Vec(Box<TypeModel>),
    SetOf(Box<TypeModel>),
    Tuple(Seq<TypeModel>),
    Usize,
    SO,
}

/// The models of the first `n` types of `s`.
pub open spec fn types_view_prefix(s: Seq<Type>, n: nat) -> Seq<TypeModel>
    decreases s, n,
{
    if n == 0 || n > s.len() {
        Seq::empty()
    } else {
        types_view_prefix(s, (n - 1) as nat).push(type_view(s[n - 1]))
    }
}

/// The model of a type.
pub open spec fn type_view(t: Type) -> TypeModel
    decreases t, 0nat,
{
    match t {
        Type::Feature => TypeModel::Feature,
        Type::Vec(t) => TypeModel::Vec(Box::new(type_view(*t))),
        Type::SetOf(t) => TypeModel::SetOf(Box::new(type_view(*t))),
        Type::Tuple(ts) => TypeModel::Tuple(types_view_prefix(ts@, ts@.len())),
        Type::Usize => TypeModel::Usize,
        Type::SO => TypeModel::SO,
    }
}

/// The models of a vector of types.
pub open spec fn types_view(s: Seq<Type>) -> Seq<TypeModel> {
    types_view_prefix(s, s.len())
}

pub proof fn lemma_types_view_prefix(s: Seq<Type>, n: nat)
    requires
        n <= s.len(),
    ensures
        types_view_prefix(s, n).len() == n,
        forall|i: int| 0 <= i < n ==> #[trigger] types_view_prefix(s, n)[i] == type_view(s[i]),
    decreases n,
{
    if n > 0 {
        lemma_types_view_prefix(s, (n - 1) as nat);
    }
}

/// The models of a vector of types are taken element by element.
pub proof fn lemma_types_view(s: Seq<Type>)
    ensures
        types_view(s).len() == s.len(),
        forall|i: int| 0 <= i < s.len() ==> #[trigger] types_view(s)[i] == type_view(s[i]),
{
    lemma_types_view_prefix(s, s.len());
}

impl View for Type {
    type V = TypeModel;

    open spec fn view(&self) -> TypeModel {
        type_view(*self)
    }
}

/// `[F]`.
pub open spec fn feature_vec_type_model() -> TypeModel {
    TypeModel::Vec(Box::new(TypeModel::Feature))
}

/// `{F}`.
pub open spec fn feature_set_type_model() -> TypeModel {
    TypeModel::SetOf(Box::new(TypeModel::Feature))
}

/// The type of lexical items, `Li = <{F}, {F}, [F]>`.
pub open spec fn lexical_item_type_model() -> TypeModel {
    TypeModel::Tuple(seq![feature_set_type_model(), feature_set_type_model(), feature_vec_type_model()])
}

/// The type of lexical item tokens, `Lit = <Li, usize>`.
pub open spec fn lexical_item_token_type_model() -> TypeModel {
    TypeModel::Tuple(seq![lexical_item_type_model(), TypeModel::Usize])
}

/// The type of transferred objects, `<SO, [F], {F}>`.
pub open spec fn transferred_so_type_model() -> TypeModel {
    TypeModel::Tuple(seq![TypeModel::SO, feature_vec_type_model(), feature_set_type_model()])
}

/// The type of lexicons, `Lex = {Li}`.
pub open spec fn lexicon_type_model() -> TypeModel {
    TypeModel::SetOf(Box::new(lexical_item_type_model()))
}

/// The type of Universal Grammar, `UG = <{F}, {F}, {F}>`.
pub open spec fn universal_grammar_type_model() -> TypeModel {
    TypeModel::Tuple(seq![feature_set_type_model(), feature_set_type_model(), feature_set_type_model()])
}

/// The type of lexical arrays, `La = {Lit}`.
pub open spec fn lexical_array_type_model() -> TypeModel {
    TypeModel::SetOf(Box::new(lexical_item_token_type_model()))
}

/// The type of workspaces, `Wksp = {SO}`.
pub open spec fn workspace_type_model() -> TypeModel {
    TypeModel::SetOf(Box::new(TypeModel::SO))
}

/// The type of stages, `Stage = <La, Wksp>`.
pub open spec fn stage_type_model() -> TypeModel {
    TypeModel::Tuple(seq![lexical_array_type_model(), workspace_type_model()])
}

/// The type of derivations, `Deriv = [Stage]`.
pub open spec fn derivation_type_model() -> TypeModel {
    TypeModel::Vec(Box::new(stage_type_model()))
}

fn feature_vec_type() -> (r: Type)
    ensures
        r@ == feature_vec_type_model(),
{
    let f = Type::Feature;
    assert(f@ == TypeModel::Feature);
    Type::Vec(Box::new(f))
}

fn feature_set_type() -> (r: Type)
    ensures
        r@ == feature_set_type_model(),
{
    let f = Type::Feature;
    assert(f@ == TypeModel::Feature);
    Type::SetOf(Box::new(f))
}

/// A tuple type from its members.
fn tuple_type(v: Vec<Type>) -> (r: Type)
    ensures
        r@ == TypeModel::Tuple(types_view(v@)),
{
    Type::Tuple(v)
}

/// The type of lexical items.
pub fn lexical_item_type() -> (r: Type)
    ensures
        r@ == lexical_item_type_model(),
{
    let v = vec![feature_set_type(), feature_set_type(), feature_vec_type()];
    proof {
        lemma_types_view(v@);
        assert(types_view(v@) =~= seq![feature_set_type_model(), feature_set_type_model(), feature_vec_type_model()]);
    }
    tuple_type(v)
}

/// The type of lexical item tokens.
pub fn lexical_item_token_type() -> (r: Type)
    ensures
        r@ == lexical_item_token_type_model(),
{
    let v = vec![lexical_item_type(), Type::Usize];
    proof {
        lemma_types_view(v@);
        assert(types_view(v@) =~= seq![lexical_item_type_model(), TypeModel::Usize]);
    }
    tuple_type(v)
}

/// The type of transferred objects.
pub fn transferred_so_type() -> (r: Type)
    ensures
        r@ == transferred_so_type_model(),
{
    let v = vec![Type::SO, feature_vec_type(), feature_set_type()];
    proof {
        lemma_types_view(v@);
        assert(types_view(v@) =~= seq![TypeModel::SO, feature_vec_type_model(), feature_set_type_model()]);
    }
    tuple_type(v)
}

/// The type of lexicons.
pub fn lexicon_type() -> (r: Type)
    ensures
        r@ == lexicon_type_model(),
{
    Type::SetOf(Box::new(lexical_item_type()))
}

/// The type of Universal Grammar.
pub fn universal_grammar_type() -> (r: Type)
    ensures
        r@ == universal_grammar_type_model(),
{
    let v = vec![feature_set_type(), feature_set_type(), feature_set_type()];
    proof {
        lemma_types_view(v@);
        assert(types_view(v@) =~= seq![feature_set_type_model(), feature_set_type_model(), feature_set_type_model()]);
    }
    tuple_type(v)
}

/// The type of lexical arrays.
pub fn lexical_array_type() -> (r: Type)
    ensures
        r@ == lexical_array_type_model(),
{
    Type::SetOf(Box::new(lexical_item_token_type()))
}

/// The type of workspaces.
pub fn workspace_type() -> (r: Type)
    ensures
        r@ == workspace_type_model(),
{
    let so = Type::SO;
    assert(so@ == TypeModel::SO);
    Type::SetOf(Box::new(so))
}

/// The type of stages.
pub fn stage_type() -> (r: Type)
    ensures
        r@ == stage_type_model(),
{
    let v = vec![lexical_array_type(), workspace_type()];
    proof {
        lemma_types_view(v@);
        assert(types_view(v@) =~= seq![lexical_array_type_model(), workspace_type_model()]);
    }
    tuple_type(v)
}

/// The type of derivations.
pub fn derivation_type() -> (r: Type)
    ensures
        r@ == derivation_type_model(),
{
    Type::Vec(Box::new(stage_type()))
}

impl Type {
    /// Whether two types are the same.
    pub fn same_as(&self, other: &Type) -> (r: bool)
        ensures
            r == (self@ == other@),
        decreases self,
    {
        match (self, other) {
            (Type::Feature, Type::Feature) => true,
            (Type::Usize, Type::Usize) => true,
            (Type::SO, Type::SO) => true,
            (Type::Vec(a), Type::Vec(b)) => a.same_as(b),
            (Type::SetOf(a), Type::SetOf(b)) => a.same_as(b),
            (Type::Tuple(a), Type::Tuple(b)) => {
                proof {
                    lemma_types_view(a@);
                    lemma_types_view(b@);
                }
                if a.len() != b.len() {
                    assert(types_view(a@).len() != types_view(b@).len());
                    return false;
                }
                let mut i: usize = 0;
                while i < a.len()
                    invariant
                        a.len() == b.len(),
                        i <= a.len(),
                        *self == Type::Tuple(*a),
                        *other == Type::Tuple(*b),
                        types_view(a@).len() == a.len(),
                        types_view(b@).len() == b.len(),
                        forall|j: int| 0 <= j < a.len() ==> #[trigger] types_view(a@)[j] == type_view(a@[j]),
                        forall|j: int| 0 <= j < b.len() ==> #[trigger] types_view(b@)[j] == type_view(b@[j]),
                        forall|j: int| 0 <= j < i ==> type_view(a@[j]) == type_view(b@[j]),
                    decreases a.len() - i,
                {
                    proof {
                        assert(decreases_to!(*self => self->Tuple_0));
                    }
                    if !a[i].same_as(&b[i]) {
                        assert(types_view(a@)[i as int] != types_view(b@)[i as int]);
                        return false;
                    }
                    i = i + 1;
                }
                assert(types_view(a@) =~= types_view(b@));
                true
            },
            _ => false,
        }
    }

    /// A copy of the type.
    pub fn dup(&self) -> (r: Type)
        ensures
            r@ == self@,
        decreases self,
    {
        match self {
            Type::Feature => Type::Feature,
            Type::Usize => Type::Usize,
            Type::SO => Type::SO,
            Type::Vec(a) => Type::Vec(Box::new(a.dup())),
            Type::SetOf(a) => Type::SetOf(Box::new(a.dup())),
            Type::Tuple(a) => {
                let mut v: Vec<Type> = Vec::new();
                let mut i: usize = 0;
                while i < a.len()
                    invariant
                        i <= a.len(),
                        v@.len() == i,
                        *self == Type::Tuple(*a),
                        forall|j: int| 0 <= j < i ==> #[trigger] type_view(v@[j]) == type_view(a@[j]),
                    decreases a.len() - i,
                {
                    proof {
                        assert(decreases_to!(*self => self->Tuple_0));
                    }
                    v.push(a[i].dup());
                    i = i + 1;
                }
                proof {
                    lemma_types_view(a@);
                    lemma_types_view(v@);
                    assert(types_view(v@) =~= types_view(a@));
                }
                Type::Tuple(v)
            },
        }
    }
}


/// The text of a type: `F`, `[T]`, `{T}`, `<T1, ..., Tn>`, `usize` or `SO`.
pub open spec fn type_text(t: TypeModel) -> Seq<char>
    decreases t, 0nat,
{
    match t {
        TypeModel::Feature => "F"@,
        TypeModel::Vec(t) => "["@ + type_text(*t) + "]"@,
        TypeModel::SetOf(t) => "{"@ + type_text(*t) + "}"@,
        TypeModel::Tuple(ts) => "<"@ + types_text(ts, ts.len()) + ">"@,
        TypeModel::Usize => "usize"@,
        TypeModel::SO => "SO"@,
    }
}

/// The texts of the first `n` types of `ts`, separated by `, `.
pub open spec fn types_text(ts: Seq<TypeModel>, n: nat) -> Seq<char>
    decreases ts, n,
{
    if n == 0 || n > ts.len() {
        Seq::empty()
    } else if n == 1 {
        type_text(ts[0])
    } else {
        types_text(ts, (n - 1) as nat) + ", "@ + type_text(ts[n - 1])
    }
}

impl Type {
    /// Append the text of the type.
    fn append_text(&self, out: &mut String)
        ensures
            final(out)@ == old(out)@ + type_text(self@),
        decreases self,
    {
        match self {
            Type::Feature => out.append("F"),
            Type::Usize => out.append("usize"),
            Type::SO => out.append("SO"),
            Type::Vec(t) => {
                out.append("[");
                t.append_text(out);
                out.append("]");
                assert(final(out)@ =~= old(out)@ + type_text(self@));
            },
            Type::SetOf(t) => {
                out.append("{");
                t.append_text(out);
                out.append("}");
                assert(final(out)@ =~= old(out)@ + type_text(self@));
            },
            Type::Tuple(ts) => {
                proof {
                    lemma_types_view(ts@);
                }
                let ghost tv = types_view(ts@);
                out.append("<");
                let ghost start = out@;
                let mut i: usize = 0;
                while i < ts.len()
                    invariant
                        i <= ts.len(),
                        *self == Type::Tuple(*ts),
                        tv == types_view(ts@),
                        tv.len() == ts.len(),
                        forall|j: int| 0 <= j < ts.len() ==> #[trigger] tv[j] == type_view(ts@[j]),
                        out@ == start + types_text(tv, i as nat),
                    decreases ts.len() - i,
                {
                    proof {
                        assert(decreases_to!(*self => self->Tuple_0));
                    }
                    if i > 0 {
                        out.append(", ");
                    }
                    ts[i].append_text(out);
                    assert(out@ =~= start + types_text(tv, (i + 1) as nat));
                    i = i + 1;
                }
                out.append(">");
                assert(final(out)@ =~= old(out)@ + type_text(self@));
            },
        }
    }

    /// The text of the type.
    pub fn to_string(&self) -> (r: String)
        ensures
            r@ == type_text(self@),
    {
        let mut out = String::new();
        self.append_text(&mut out);
        assert(out@ =~= type_text(self@));
        out
    }
}

/// Value representation, after evaluation.
pub enum Value {
    Feature(Feature),
    Vec(Vec<Value>),
    SetOf(Vec<Value>),
    Tuple(Vec<Value>),
    Usize(usize),
}

/// The model of a value.
pub enum ValueModel {
    Feature(Seq<char>),
    Vec(Seq<ValueModel>),
    SetOf(Seq<ValueModel>),
    Tuple(Seq<ValueModel>),
    Usize(usize),
}

/// The models of the first `n` values of `s`.
pub open spec fn values_view_prefix(s: Seq<Value>, n: nat) -> Seq<ValueModel>
    decreases s, n,
{
    if n == 0 || n > s.len() {
        Seq::empty()
    } else {
        values_view_prefix(s, (n - 1) as nat).push(value_view(s[n - 1]))
    }
}

/// The model of a value.
pub open spec fn value_view(v: Value) -> ValueModel
    decreases v, 0nat,
{
    match v {
        Value::Feature(f) => ValueModel::Feature(f@),
        Value::Vec(vs) => ValueModel::Vec(values_view_prefix(vs@, vs@.len())),
        Value::SetOf(vs) => ValueModel::SetOf(values_view_prefix(vs@, vs@.len())),
        Value::Tuple(vs) => ValueModel::Tuple(values_view_prefix(vs@, vs@.len())),
        Value::Usize(x) => ValueModel::Usize(x),
    }
}

/// The models of a vector of values.
pub open spec fn values_view(s: Seq<Value>) -> Seq<ValueModel> {
    values_view_prefix(s, s.len())
}

pub proof fn lemma_values_view_prefix(s: Seq<Value>, n: nat)
    requires
        n <= s.len(),
    ensures
        values_view_prefix(s, n).len() == n,
        forall|i: int| 0 <= i < n ==> #[trigger] values_view_prefix(s, n)[i] == value_view(s[i]),
    decreases n,
{
    if n > 0 {
        lemma_values_view_prefix(s, (n - 1) as nat);
    }
}

/// The models of a vector of values are taken element by element.
pub proof fn lemma_values_view(s: Seq<Value>)
    ensures
        values_view(s).len() == s.len(),
        forall|i: int| 0 <= i < s.len() ==> #[trigger] values_view(s)[i] == value_view(s[i]),
{
    lemma_values_view_prefix(s, s.len());
}

impl View for Value {
    type V = ValueModel;

    open spec fn view(&self) -> ValueModel {
        value_view(*self)
    }
}

/// A copy of a vector of values.
fn values_dup(a: &Vec<Value>) -> (r: Vec<Value>)
    ensures
        values_view(r@) == values_view(a@),
    decreases a@, 1nat,
{
    let mut v: Vec<Value> = Vec::new();
    let mut i: usize = 0;
    while i < a.len()
        invariant
            i <= a.len(),
            v@.len() == i,
            forall|j: int| 0 <= j < i ==> #[trigger] value_view(v@[j]) == value_view(a@[j]),
        decreases a.len() - i,
    {
        proof {
            assert(decreases_to!(a@ => a@[i as int]));
        }
        v.push(a[i].dup());
        i = i + 1;
    }
    proof {
        lemma_values_view(a@);
        lemma_values_view(v@);
        assert(values_view(v@) =~= values_view(a@));
    }
    v
}

impl Value {
    /// A copy of the value.
    pub fn dup(&self) -> (r: Value)
        ensures
            r@ == self@,
        decreases self, 0nat,
    {
        match self {
            Value::Feature(f) => Value::Feature(f.dup()),
            Value::Usize(x) => Value::Usize(*x),
            Value::Vec(a) => {
                proof {
                    assert(decreases_to!(*self => a@));
                }
                Value::Vec(values_dup(a))
            },
            Value::SetOf(a) => {
                proof {
                    assert(decreases_to!(*self => a@));
                }
                Value::SetOf(values_dup(a))
            },
            Value::Tuple(a) => {
                proof {
                    assert(decreases_to!(*self => a@));
                }
                Value::Tuple(values_dup(a))
            },
        }
    }
}

/// The model of the bindings of an environment: the entries, oldest first.
pub type EnvEntries = Seq<(Seq<char>, TypeModel, ValueModel)>;

/// The binding of `id` among the entries: that of its latest entry.
pub open spec fn env_lookup(m: EnvEntries, id: Seq<char>) -> Option<(TypeModel, ValueModel)>
    decreases m.len(),
{
    if m.len() == 0 {
        None
    } else if m.last().0 == id {
        Some((m.last().1, m.last().2))
    } else {
        env_lookup(m.drop_last(), id)
    }
}

/// The bindings of the entries, as a map.
pub open spec fn env_map(m: EnvEntries) -> Map<Seq<char>, (TypeModel, ValueModel)> {
    Map::new(|id: Seq<char>| env_lookup(m, id) is Some, |id: Seq<char>| env_lookup(m, id)->Some_0)
}

/// An environment: the typed values bound to names.
pub struct Env {
    entries: Vec<(String, Type, Value)>,
}

impl Env {
    /// The entries, oldest first.
    pub closed spec fn entries(&self) -> EnvEntries {
        self.entries@.map_values(|e: (String, Type, Value)| (e.0@, e.1@, e.2@))
    }
}

impl View for Env {
    type V = Map<Seq<char>, (TypeModel, ValueModel)>;

    open spec fn view(&self) -> Map<Seq<char>, (TypeModel, ValueModel)> {
        env_map(self.entries())
    }
}

impl Env {
    /// The empty environment.
    pub fn new() -> (r: Env)
        ensures
            r@ == Map::<Seq<char>, (TypeModel, ValueModel)>::empty(),
    {
        let r = Env { entries: Vec::new() };
        assert(r.entries() =~= Seq::<(Seq<char>, TypeModel, ValueModel)>::empty());
        assert(r@ =~= Map::<Seq<char>, (TypeModel, ValueModel)>::empty());
        r
    }

    /// The position of the latest entry for `id`.
    fn find(&self, id: &String) -> (r: Option<usize>)
        ensures
            match r {
                None => !self@.contains_key(id@),
                Some(i) => i < self.entries@.len() && self@.contains_key(id@) && self@[id@] == (
                    self.entries@[i as int].1@,
                    self.entries@[i as int].2@,
                ) && self.entries@[i as int].0@ == id@,
            },
    {
        let ghost m = self.entries();
        let mut i: usize = self.entries.len();
        assert(m.take(i as int) =~= m);
        while i > 0
            invariant
                i <= self.entries@.len(),
                m == self.entries(),
                m.len() == self.entries@.len(),
                env_lookup(m, id@) == env_lookup(m.take(i as int), id@),
            decreases i,
        {
            let ghost t = m.take(i as int);
            assert(t.last() == m[i - 1]);
            assert(t.drop_last() =~= m.take(i - 1));
            if self.entries[i - 1].0 == *id {
                return Some(i - 1);
            }
            i = i - 1;
        }
        assert(m.take(0) =~= Seq::<(Seq<char>, TypeModel, ValueModel)>::empty());
        None
    }

    /// The type and value bound to `id`, if any.
    pub fn get(&self, id: &String) -> (r: Option<(&Type, &Value)>)
        ensures
            match r {
                None => !self@.contains_key(id@),
                Some((t, v)) => self@.contains_key(id@) && self@[id@] == (t@, v@),
            },
    {
        match self.find(id) {
            None => None,
            Some(i) => Some((&self.entries[i].1, &self.entries[i].2)),
        }
    }

    /// Bind `id` to the typed value; the value that it was bound to before,
    /// if any, comes back.
    pub fn insert(&mut self, id: String, t: Type, v: Value) -> (r: Option<Value>)
        ensures
            final(self)@ == old(self)@.insert(id@, (t@, v@)),
            match r {
                None => !old(self)@.contains_key(id@),
                Some(w) => old(self)@.contains_key(id@) && old(self)@[id@].1 == w@,
            },
    {
        let old_value = match self.find(&id) {
            None => None,
            Some(i) => Some(self.entries[i].2.dup()),
        };
        let ghost m0 = self.entries();
        let ghost x = (id@, t@, v@);
        self.entries.push((id, t, v));
        assert(self.entries() =~= m0.push(x));
        assert forall|k: Seq<char>| #![auto] env_lookup(m0.push(x), k) == if k == x.0 {
            Some((x.1, x.2))
        } else {
            env_lookup(m0, k)
        } by {
            assert(m0.push(x).drop_last() =~= m0);
        }
        assert(self@ =~= old(self)@.insert(x.0, (x.1, x.2)));
        old_value
    }
}

} // verus!
