//! Metadata values: what rows carry beside their vectors.

use crate::ast::CmpOp;
use crate::ieee::{
    equal64, exec_equal64, exec_from_integer, exec_is_nan64, exec_order64, from_integer, is_nan64,
    order64,
};
use crate::text::chars_of;
use vstd::prelude::*;
use vstd::std_specs::cmp::PartialEqSpecImpl;

verus! {

/// A metadata value.
#[derive(Debug)]
pub enum Value {
    /// UTF-8 string.
    String(String),
    /// Signed 64-bit integer.
    I64(i64),
    /// 64-bit floating-point number, as its bit pattern.
    F64(u64),
    /// Boolean.
    Bool(bool),
    /// List of values.
    Array(Vec<Value>),
    /// Nested bag of named values.
    Object(Metadata),
}

/// A named value of a [`Metadata`] bag.
#[derive(Debug)]
pub struct Entry {
    key: String,
    value: Value,
}

/// A bag of named values. No name occurs twice.
#[derive(Debug)]
pub struct Metadata {
    entries: Vec<Entry>,
}

/// A metadata value, with text as sequences and bags as maps.
pub enum Val {
    Str(Seq<char>),
    I64(i64),
    F64(u64),
    Bool(bool),
    Array(Seq<Val>),
    Object(Map<Seq<char>, Val>),
}

/// A bag of named values.
pub type Bag = Map<Seq<char>, Val>;

impl Value {
    pub closed spec fn model(&self) -> Val
        decreases self,
    {
        match self {
            Value::String(s) => Val::Str(s@),
            Value::I64(n) => Val::I64(*n),
            Value::F64(b) => Val::F64(*b),
            Value::Bool(b) => Val::Bool(*b),
            Value::Array(v) => Val::Array(value_models(v@)),
            Value::Object(m) => Val::Object(bag_model(m.entries@)),
        }
    }
}

closed spec fn value_models(v: Seq<Value>) -> Seq<Val>
    decreases v,
{
    Seq::new(
        v.len(),
        |i: int|
            if 0 <= i < v.len() {
                v[i].model()
            } else {
                arbitrary()
            },
    )
}

closed spec fn bag_model(es: Seq<Entry>) -> Bag
    decreases es,
{
    if es.len() == 0 {
        Map::empty()
    } else {
        bag_model(es.drop_last()).insert(es.last().key@, es[es.len() - 1].value.model())
    }
}

impl View for Value {
    type V = Val;

    open spec fn view(&self) -> Val {
        self.model()
    }
}

impl View for Metadata {
    type V = Bag;

    closed spec fn view(&self) -> Bag {
        bag_model(self.entries@)
    }
}

/// The models of `v`, in order.
pub open spec fn vals(v: Seq<Value>) -> Seq<Val> {
    Seq::new(v.len(), |i: int| v[i]@)
}

/// What a value stands for, variant by variant.
pub broadcast proof fn lemma_value_model(v: Value)
    ensures
        #[trigger] v.model() == (match v {
            Value::String(s) => Val::Str(s@),
            Value::I64(n) => Val::I64(n),
            Value::F64(b) => Val::F64(b),
            Value::Bool(b) => Val::Bool(b),
            Value::Array(a) => Val::Array(vals(a@)),
            Value::Object(m) => Val::Object(m@),
        }),
{
    match v {
        Value::Array(a) => {
            assert(value_models(a@) =~= vals(a@));
        },
        _ => {},
    }
}

/// Whether the keys of `es` are pairwise different.
spec fn distinct(es: Seq<Entry>) -> bool {
    forall|i: int, j: int| 0 <= i < j < es.len() ==> (#[trigger] es[i]).key@ != (#[trigger] es[j]).key@
}

proof fn lemma_bag(es: Seq<Entry>)
    ensures
        forall|k: Seq<char>| #[trigger]
            bag_model(es).dom().contains(k) <==> exists|i: int|
                0 <= i < es.len() && (#[trigger] es[i]).key@ == k,
        distinct(es) ==> forall|i: int|
            0 <= i < es.len() ==> bag_model(es)[(#[trigger] es[i]).key@] == es[i].value@,
    decreases es.len(),
{
    if es.len() > 0 {
        let p = es.drop_last();
        lemma_bag(p);
        let last = es.last();
        assert forall|k: Seq<char>| #[trigger]
            bag_model(es).dom().contains(k) <==> exists|i: int|
                0 <= i < es.len() && (#[trigger] es[i]).key@ == k by {
            if bag_model(es).dom().contains(k) {
                if k == last.key@ {
                    assert(es[es.len() - 1].key@ == k);
                } else {
                    assert(bag_model(p).dom().contains(k));
                    let i = choose|i: int| 0 <= i < p.len() && (#[trigger] p[i]).key@ == k;
                    assert(es[i].key@ == k);
                }
            }
            if exists|i: int| 0 <= i < es.len() && (#[trigger] es[i]).key@ == k {
                let i = choose|i: int| 0 <= i < es.len() && (#[trigger] es[i]).key@ == k;
                if i < p.len() {
                    assert(p[i].key@ == k);
                    assert(bag_model(p).dom().contains(k));
                }
            }
        }
        if distinct(es) {
            assert(distinct(p)) by {
                assert forall|i: int, j: int| 0 <= i < j < p.len() implies (#[trigger] p[i]).key@
                    != (#[trigger] p[j]).key@ by {
                    assert(p[i] == es[i] && p[j] == es[j]);
                }
            }
            assert forall|i: int| 0 <= i < es.len() implies bag_model(es)[(#[trigger] es[i]).key@]
                == es[i].value@ by {
                if i < p.len() {
                    assert(es[i] == p[i]);
                    assert(es[i].key@ != es[es.len() - 1].key@);
                }
            }
        }
    }
}

impl Metadata {
    #[verifier::type_invariant]
    spec fn inv(self) -> bool {
        distinct(self.entries@)
    }

    /// An empty bag.
    pub fn new() -> (r: Metadata)
        ensures
            r@ == Map::<Seq<char>, Val>::empty(),
    {
        Metadata { entries: Vec::new() }
    }

    /// The position of the entry named `key`.
    fn position(&self, key: &str) -> (r: Option<usize>)
        ensures
            match r {
                Some(i) => i < self.entries.len() && self.entries@[i as int].key@ == key@,
                None => !self@.dom().contains(key@),
            },
    {
        let mut i: usize = 0;
        while i < self.entries.len()
            invariant
                i <= self.entries.len(),
                forall|j: int| 0 <= j < i ==> (#[trigger] self.entries@[j]).key@ != key@,
            decreases self.entries.len() - i,
        {
            if same_text(self.entries[i].key.as_str(), key) {
                return Some(i);
            }
            i = i + 1;
        }
        proof {
            lemma_bag(self.entries@);
        }
        None
    }

    /// The value named `key`.
    pub fn get(&self, key: &str) -> (r: Option<&Value>)
        ensures
            match r {
                Some(v) => self@.dom().contains(key@) && self@[key@] == v@,
                None => !self@.dom().contains(key@),
            },
    {
        proof {
            use_type_invariant(self);
            lemma_bag(self.entries@);
        }
        match self.position(key) {
            Some(i) => {
                assert(self.entries@[i as int].key@ == key@);
                Some(&self.entries[i].value)
            },
            None => None,
        }
    }

    /// Names `value` by `key`, in place of what had that name before.
    pub fn insert(&mut self, key: String, value: Value)
        ensures
            final(self)@ == old(self)@.insert(key@, value@),
    {
        proof {
            use_type_invariant(&*self);
            lemma_bag(self.entries@);
        }
        let found: Option<usize> = self.position(key.as_str());
        let mut entries: Vec<Entry> = Vec::new();
        std::mem::swap(&mut self.entries, &mut entries);
        let ghost before = entries@;
        let ghost k = key@;
        let ghost val = value@;
        match found {
            Some(i) => {
                entries.set(i, Entry { key, value });
                proof {
                    assert forall|a: int, b: int| 0 <= a < b < entries.len() implies (
                    #[trigger] entries@[a]).key@ != (#[trigger] entries@[b]).key@ by {
                        assert(before[a].key@ != before[b].key@);
                    }
                    lemma_bag(entries@);
                    let after = bag_model(entries@);
                    assert forall|x: Seq<char>| #[trigger] after.dom().contains(x) <==> bag_model(
                        before,
                    ).insert(k, val).dom().contains(x) by {
                        if after.dom().contains(x) {
                            let j = choose|j: int|
                                0 <= j < entries.len() && (#[trigger] entries@[j]).key@ == x;
                            assert(before[j].key@ == x);
                        }
                        if bag_model(before).dom().contains(x) {
                            let j = choose|j: int|
                                0 <= j < before.len() && (#[trigger] before[j]).key@ == x;
                            assert(entries@[j].key@ == x);
                        }
                        assert(entries@[i as int].key@ == k);
                    }
                    assert forall|x: Seq<char>| #[trigger] after.dom().contains(x) implies after[x]
                        == bag_model(before).insert(k, val)[x] by {
                        let j = choose|j: int|
                            0 <= j < entries.len() && (#[trigger] entries@[j]).key@ == x;
                        assert(before[j].key@ == x);
                        if j != i {
                            assert(entries@[j].key@ != entries@[i as int].key@);
                        }
                    }
                    assert(after =~= bag_model(before).insert(k, val));
                }
            },
            None => {
                entries.push(Entry { key, value });
                proof {
                    assert(entries@.drop_last() =~= before);
                    assert forall|a: int, b: int| 0 <= a < b < entries.len() implies (
                    #[trigger] entries@[a]).key@ != (#[trigger] entries@[b]).key@ by {
                        if b == before.len() {
                            assert(before[a].key@ != k);
                        } else {
                            assert(before[a].key@ != before[b].key@);
                        }
                    }
                }
            },
        }
        self.entries = entries;
    }
}

/// Whether two texts are equal.
pub fn same_text(a: &str, b: &str) -> (r: bool)
    ensures
        r == (a@ == b@),
{
    a.to_owned() == b.to_owned()
}

impl Value {
    /// A copy of the value.
    pub fn copy(&self) -> (r: Value)
        ensures
            r@ == self@,
        decreases self, 1int,
    {
        broadcast use lemma_value_model;

        match self {
            Value::String(s) => Value::String(s.clone()),
            Value::I64(n) => Value::I64(*n),
            Value::F64(b) => Value::F64(*b),
            Value::Bool(b) => Value::Bool(*b),
            Value::Array(v) => Value::Array(copy_values(v)),
            Value::Object(m) => Value::Object(m.copy()),
        }
    }
}

fn copy_values(v: &Vec<Value>) -> (r: Vec<Value>)
    ensures
        vals(r@) == vals(v@),
    decreases v, 2int,
{
    let mut r: Vec<Value> = Vec::new();
    let mut i: usize = 0;
    while i < v.len()
        invariant
            i <= v.len(),
            vals(r@) =~= vals(v@).take(i as int),
        decreases v.len() - i,
    {
        assert(decreases_to!(v => v@[i as int]));
        let x: Value = v[i].copy();
        let ghost before = r@;
        r.push(x);
        assert(vals(before.push(x)) =~= vals(before).push(x@));
        i = i + 1;
    }
    assert(vals(v@).take(v.len() as int) =~= vals(v@));
    r
}

impl Metadata {
    /// A copy of the bag.
    pub fn copy(&self) -> (r: Metadata)
        ensures
            r@ == self@,
        decreases self, 0int,
    {
        proof {
            use_type_invariant(self);
        }
        let mut entries: Vec<Entry> = Vec::new();
        let mut i: usize = 0;
        while i < self.entries.len()
            invariant
                i <= self.entries.len(),
                entries.len() == i,
                forall|j: int|
                    0 <= j < i ==> (#[trigger] entries@[j]).key@ == self.entries@[j].key@
                        && entries@[j].value@ == self.entries@[j].value@,
                bag_model(entries@) == bag_model(self.entries@.take(i as int)),
            decreases self.entries.len() - i,
        {
            let e: &Entry = &self.entries[i];
            let key: String = e.key.clone();
            assert(decreases_to!(self => self.entries@[i as int].value));
            let value: Value = e.value.copy();
            let ghost before = entries@;
            entries.push(Entry { key, value });
            proof {
                assert(entries@.drop_last() =~= before);
                let t = self.entries@.take(i + 1);
                assert(t.drop_last() =~= self.entries@.take(i as int));
            }
            i = i + 1;
        }
        proof {
            assert(self.entries@.take(i as int) =~= self.entries@);
            assert forall|a: int, b: int| 0 <= a < b < entries.len() implies (
            #[trigger] entries@[a]).key@ != (#[trigger] entries@[b]).key@ by {
                assert(self.entries@[a].key@ != self.entries@[b].key@);
            }
        }
        Metadata { entries }
    }
}

// ----- Equality and order -----

/// Whether two values are the same: equal kinds with equal contents, where
/// floating-point numbers compare by value.
pub open spec fn same_val(a: Val, b: Val) -> bool
    decreases a,
{
    match (a, b) {
        (Val::Str(x), Val::Str(y)) => x == y,
        (Val::I64(x), Val::I64(y)) => x == y,
        (Val::F64(x), Val::F64(y)) => equal64(x, y),
        (Val::Bool(x), Val::Bool(y)) => x == y,
        (Val::Array(x), Val::Array(y)) => x.len() == y.len() && forall|i: int|
            0 <= i < x.len() ==> same_val(#[trigger] x[i], y[i]),
        (Val::Object(x), Val::Object(y)) => x.dom() == y.dom() && forall|k: Seq<char>|
            x.dom().contains(k) ==> same_val(#[trigger] x[k], y[k]),
        _ => false,
    }
}

/// Equality of values: the same value, or an integer and a floating-point
/// number that are equal once the integer is rounded to 64 bits.
pub open spec fn equal_vals(a: Val, b: Val) -> bool {
    match (a, b) {
        (Val::I64(x), Val::F64(y)) => equal64(from_integer(x as int), y),
        (Val::F64(x), Val::I64(y)) => equal64(x, from_integer(y as int)),
        _ => same_val(a, b),
    }
}

/// How two values relate.
#[derive(Debug, Clone, Copy, PartialEq, Eq, Structural)]
pub enum Relation {
    Less,
    Equal,
    Greater,
}

pub open spec fn relate_ints(a: int, b: int) -> Relation {
    if a < b {
        Relation::Less
    } else if a == b {
        Relation::Equal
    } else {
        Relation::Greater
    }
}

/// Texts relate as their first different characters do; a prefix comes first.
pub open spec fn relate_texts(a: Seq<char>, b: Seq<char>) -> Relation
    decreases a.len(),
{
    if a.len() == 0 || b.len() == 0 {
        relate_ints(a.len() as int, b.len() as int)
    } else if a[0] != b[0] {
        relate_ints(a[0] as int, b[0] as int)
    } else {
        relate_texts(a.skip(1), b.skip(1))
    }
}

pub open spec fn relate_floats(a: u64, b: u64) -> Option<Relation> {
    if is_nan64(a) || is_nan64(b) {
        None
    } else {
        Some(relate_ints(order64(a), order64(b)))
    }
}

pub open spec fn bool_rank(b: bool) -> int {
    if b {
        1
    } else {
        0
    }
}

/// How two values relate, if they can be ordered: texts, numbers and booleans
/// among themselves.
pub open spec fn relate_vals(a: Val, b: Val) -> Option<Relation> {
    match (a, b) {
        (Val::Str(x), Val::Str(y)) => Some(relate_texts(x, y)),
        (Val::I64(x), Val::I64(y)) => Some(relate_ints(x as int, y as int)),
        (Val::F64(x), Val::F64(y)) => relate_floats(x, y),
        (Val::Bool(x), Val::Bool(y)) => Some(relate_ints(bool_rank(x), bool_rank(y))),
        (Val::I64(x), Val::F64(y)) => relate_floats(from_integer(x as int), y),
        (Val::F64(x), Val::I64(y)) => relate_floats(x, from_integer(y as int)),
        _ => None,
    }
}

pub open spec fn holds(op: CmpOp, r: Relation) -> bool {
    match op {
        CmpOp::Eq => r == Relation::Equal,
        CmpOp::Ne => r != Relation::Equal,
        CmpOp::Lt => r == Relation::Less,
        CmpOp::Le => r != Relation::Greater,
        CmpOp::Gt => r == Relation::Greater,
        CmpOp::Ge => r != Relation::Less,
    }
}

/// Whether `a op b`, if the two can be ordered.
pub open spec fn compare_vals(a: Val, b: Val, op: CmpOp) -> Option<bool> {
    match relate_vals(a, b) {
        Some(r) => Some(holds(op, r)),
        None => None,
    }
}

/// Whether two values are the same.
fn same(a: &Value, b: &Value) -> (r: bool)
    ensures
        r == same_val(a@, b@),
    decreases a, 1int,
{
    broadcast use lemma_value_model;

    match (a, b) {
        (Value::String(x), Value::String(y)) => same_text(x.as_str(), y.as_str()),
        (Value::I64(x), Value::I64(y)) => *x == *y,
        (Value::F64(x), Value::F64(y)) => exec_equal64(*x, *y),
        (Value::Bool(x), Value::Bool(y)) => *x == *y,
        (Value::Array(x), Value::Array(y)) => same_values(x, y),
        (Value::Object(x), Value::Object(y)) => same_bags(x, y),
        _ => false,
    }
}

fn same_values(x: &Vec<Value>, y: &Vec<Value>) -> (r: bool)
    ensures
        r == same_val(Val::Array(vals(x@)), Val::Array(vals(y@))),
    decreases x, 2int,
{
    if x.len() != y.len() {
        return false;
    }
    let mut i: usize = 0;
    while i < x.len()
        invariant
            i <= x.len(),
            x.len() == y.len(),
            forall|j: int| 0 <= j < i ==> same_val(#[trigger] vals(x@)[j], vals(y@)[j]),
        decreases x.len() - i,
    {
        assert(decreases_to!(x => x@[i as int]));
        if !same(&x[i], &y[i]) {
            assert(!same_val(vals(x@)[i as int], vals(y@)[i as int]));
            return false;
        }
        i = i + 1;
    }
    true
}

fn same_bags(x: &Metadata, y: &Metadata) -> (r: bool)
    ensures
        r == same_val(Val::Object(x@), Val::Object(y@)),
    decreases x, 2int,
{
    proof {
        use_type_invariant(x);
        use_type_invariant(y);
        lemma_bag(x.entries@);
        lemma_bag(y.entries@);
    }
    let mut i: usize = 0;
    while i < x.entries.len()
        invariant
            i <= x.entries.len(),
            distinct(x.entries@),
            forall|j: int|
                0 <= j < x.entries.len() ==> x@[(#[trigger] x.entries@[j]).key@]
                    == x.entries@[j].value@,
            forall|j: int|
                0 <= j < x.entries.len() ==> x@.dom().contains((#[trigger] x.entries@[j]).key@),
            forall|j: int|
                0 <= j < i ==> y@.dom().contains((#[trigger] x.entries@[j]).key@) && same_val(
                    x.entries@[j].value@,
                    y@[x.entries@[j].key@],
                ),
        decreases x.entries.len() - i,
    {
        let e: &Entry = &x.entries[i];
        let ghost k = e.key@;
        assert(decreases_to!(x => x.entries@[i as int].value));
        match y.get(e.key.as_str()) {
            Some(v) => {
                if !same(&e.value, v) {
                    assert(x@.dom().contains(k) && !same_val(x@[k], y@[k]));
                    return false;
                }
            },
            None => {
                assert(x@.dom().contains(k) && !y@.dom().contains(k));
                return false;
            },
        }
        i = i + 1;
    }
    let mut j: usize = 0;
    while j < y.entries.len()
        invariant
            j <= y.entries.len(),
            forall|n: int|
                0 <= n < y.entries.len() ==> y@.dom().contains((#[trigger] y.entries@[n]).key@),
            forall|n: int| 0 <= n < j ==> x@.dom().contains((#[trigger] y.entries@[n]).key@),
        decreases y.entries.len() - j,
    {
        let e: &Entry = &y.entries[j];
        match x.get(e.key.as_str()) {
            Some(_) => {},
            None => {
                assert(y@.dom().contains(e.key@) && !x@.dom().contains(e.key@));
                return false;
            },
        }
        j = j + 1;
    }
    proof {
        assert forall|k: Seq<char>| #[trigger] x@.dom().contains(k) <==> y@.dom().contains(k) by {
            if x@.dom().contains(k) {
                let n = choose|n: int|
                    0 <= n < x.entries.len() && (#[trigger] x.entries@[n]).key@ == k;
                assert(y@.dom().contains(x.entries@[n].key@));
            }
            if y@.dom().contains(k) {
                let n = choose|n: int|
                    0 <= n < y.entries.len() && (#[trigger] y.entries@[n]).key@ == k;
                assert(x@.dom().contains(y.entries@[n].key@));
            }
        }
        assert(x@.dom() =~= y@.dom());
        assert forall|k: Seq<char>| x@.dom().contains(k) implies same_val(#[trigger] x@[k], y@[k])
            by {
            let n = choose|n: int| 0 <= n < x.entries.len() && (#[trigger] x.entries@[n]).key@ == k;
            assert(same_val(x.entries@[n].value@, y@[k]));
        }
    }
    true
}

impl PartialEqSpecImpl for Value {
    open spec fn obeys_eq_spec() -> bool {
        true
    }

    open spec fn eq_spec(&self, other: &Value) -> bool {
        same_val(self@, other@)
    }
}

impl PartialEq for Value {
    fn eq(&self, other: &Value) -> (r: bool) {
        same(self, other)
    }
}

impl PartialEqSpecImpl for Metadata {
    open spec fn obeys_eq_spec() -> bool {
        true
    }

    open spec fn eq_spec(&self, other: &Metadata) -> bool {
        same_val(Val::Object(self@), Val::Object(other@))
    }
}

impl PartialEq for Metadata {
    fn eq(&self, other: &Metadata) -> (r: bool) {
        same_bags(self, other)
    }
}

impl Clone for Value {
    fn clone(&self) -> (r: Value)
        ensures
            r@ == self@,
    {
        self.copy()
    }
}

impl Clone for Metadata {
    fn clone(&self) -> (r: Metadata)
        ensures
            r@ == self@,
    {
        self.copy()
    }
}

/// Equality on [`Value`]: same-type direct compare, plus numeric cross-type.
/// Different non-numeric types are always unequal.
pub fn values_eq(a: &Value, b: &Value) -> (r: bool)
    ensures
        r == equal_vals(a@, b@),
{
    broadcast use lemma_value_model;

    match (a, b) {
        (Value::I64(x), Value::F64(y)) => exec_equal64(exec_from_integer(*x), *y),
        (Value::F64(x), Value::I64(y)) => exec_equal64(*x, exec_from_integer(*y)),
        _ => same(a, b),
    }
}

fn exec_relate_ints(a: i64, b: i64) -> (r: Relation)
    ensures
        r == relate_ints(a as int, b as int),
{
    if a < b {
        Relation::Less
    } else if a == b {
        Relation::Equal
    } else {
        Relation::Greater
    }
}

fn exec_relate_floats(a: u64, b: u64) -> (r: Option<Relation>)
    ensures
        r == relate_floats(a, b),
{
    if exec_is_nan64(a) || exec_is_nan64(b) {
        None
    } else {
        Some(exec_relate_ints(exec_order64(a), exec_order64(b)))
    }
}

fn exec_relate_texts(a: &str, b: &str) -> (r: Relation)
    ensures
        r == relate_texts(a@, b@),
{
    let x: Vec<char> = chars_of(a);
    let y: Vec<char> = chars_of(b);
    let mut i: usize = 0;
    assert(a@.skip(0) =~= a@ && b@.skip(0) =~= b@);
    while i < x.len() && i < y.len()
        invariant
            x@ == a@,
            y@ == b@,
            i <= x.len(),
            i <= y.len(),
            relate_texts(a@, b@) == relate_texts(a@.skip(i as int), b@.skip(i as int)),
        decreases x.len() - i,
    {
        if x[i] != y[i] {
            return if x[i] < y[i] {
                Relation::Less
            } else {
                Relation::Greater
            };
        }
        assert(a@.skip(i as int).skip(1) =~= a@.skip(i + 1));
        assert(b@.skip(i as int).skip(1) =~= b@.skip(i + 1));
        i = i + 1;
    }
    if i < y.len() {
        Relation::Less
    } else if i < x.len() {
        Relation::Greater
    } else {
        Relation::Equal
    }
}

fn relate(a: &Value, b: &Value) -> (r: Option<Relation>)
    ensures
        r == relate_vals(a@, b@),
{
    broadcast use lemma_value_model;

    match (a, b) {
        (Value::String(x), Value::String(y)) => Some(exec_relate_texts(x.as_str(), y.as_str())),
        (Value::I64(x), Value::I64(y)) => Some(exec_relate_ints(*x, *y)),
        (Value::F64(x), Value::F64(y)) => exec_relate_floats(*x, *y),
        (Value::Bool(x), Value::Bool(y)) => if *x == *y {
            Some(Relation::Equal)
        } else if *y {
            Some(Relation::Less)
        } else {
            Some(Relation::Greater)
        },
        (Value::I64(x), Value::F64(y)) => exec_relate_floats(exec_from_integer(*x), *y),
        (Value::F64(x), Value::I64(y)) => exec_relate_floats(*x, exec_from_integer(*y)),
        _ => None,
    }
}

/// Ordering compare on [`Value`] using the SQL comparison ops. `Some` when
/// comparable, `None` when not (different non-coercible types).
pub fn values_cmp(a: &Value, b: &Value, op: CmpOp) -> (r: Option<bool>)
    ensures
        r == compare_vals(a@, b@, op),
{
    match relate(a, b) {
        Some(r) => Some(
            match op {
                CmpOp::Eq => r == Relation::Equal,
                CmpOp::Ne => r != Relation::Equal,
                CmpOp::Lt => r == Relation::Less,
                CmpOp::Le => r != Relation::Greater,
                CmpOp::Gt => r == Relation::Greater,
                CmpOp::Ge => r != Relation::Less,
            },
        ),
        None => None,
    }
}

} // verus!
