//! Values that callers bind to parameter slots.

use crate::ast::{views, ParamRef};
use crate::error::{Failure, KovaQueryError};
use crate::syntax::Param;
use crate::text::{numeral, push_numeral};
use crate::value::{same_text, Bag, Metadata};
use vstd::prelude::*;

verus! {

/// An embedding: the bit patterns of its 32-bit components.
#[derive(Debug, PartialEq, Eq)]
pub struct Vector {
    /// The components, in order.
    pub components: Vec<u32>,
}

impl View for Vector {
    type V = Seq<u32>;

    open spec fn view(&self) -> Seq<u32> {
        self.components@
    }
}

impl Vector {
    /// A copy of the vector.
    pub fn copy(&self) -> (r: Vector)
        ensures
            r@ == self@,
    {
        let mut components: Vec<u32> = Vec::new();
        let mut i: usize = 0;
        while i < self.components.len()
            invariant
                i <= self.components.len(),
                components@ =~= self.components@.take(i as int),
            decreases self.components.len() - i,
        {
            components.push(self.components[i]);
            i = i + 1;
        }
        assert(components@ =~= self.components@);
        Vector { components }
    }
}

impl Clone for Vector {
    fn clone(&self) -> (r: Vector)
        ensures
            r@ == self@,
    {
        self.copy()
    }
}

/// One row to insert.
#[derive(Debug)]
pub struct NewRow {
    /// The row's id.
    pub id: u64,
    /// The row's embedding.
    pub embedding: Vector,
    /// The row's metadata.
    pub metadata: Metadata,
}

/// One row to insert, as a model.
pub struct NewRowModel {
    pub id: u64,
    pub embedding: Seq<u32>,
    pub metadata: Bag,
}

impl View for NewRow {
    type V = NewRowModel;

    open spec fn view(&self) -> NewRowModel {
        NewRowModel { id: self.id, embedding: self.embedding@, metadata: self.metadata@ }
    }
}

impl NewRow {
    /// A copy of the row.
    pub fn copy(&self) -> (r: NewRow)
        ensures
            r@ == self@,
    {
        NewRow { id: self.id, embedding: self.embedding.copy(), metadata: self.metadata.copy() }
    }
}

/// Typed parameter value the caller passes for a `$param` slot.
#[derive(Debug)]
pub enum ParamValue {
    /// Vector primary key. INSERT row id slot.
    Id(u64),
    /// Embedding vector. Single-row INSERT, or SELECT's `$query`.
    Vector(Vector),
    /// Metadata bag. Single-row INSERT / UPDATE metadata slot.
    Metadata(Metadata),
    /// Batch of rows. `INSERT VALUES $1`.
    Batch(Vec<NewRow>),
    /// UTF-8 string literal value. Predicate side.
    String(String),
    /// Signed 64-bit integer literal value. Predicate side.
    I64(i64),
    /// 64-bit float literal value, as its bit pattern. Predicate side.
    F64(u64),
    /// Boolean literal value. Predicate side.
    Bool(bool),
    /// SQL NULL. Predicate side.
    Null,
}

/// A parameter value, as a model.
pub enum Arg {
    Id(u64),
    Vector(Seq<u32>),
    Metadata(Bag),
    Batch(Seq<NewRowModel>),
    Str(Seq<char>),
    I64(i64),
    F64(u64),
    Bool(bool),
    Null,
}

impl View for ParamValue {
    type V = Arg;

    open spec fn view(&self) -> Arg {
        match self {
            ParamValue::Id(n) => Arg::Id(*n),
            ParamValue::Vector(v) => Arg::Vector(v@),
            ParamValue::Metadata(m) => Arg::Metadata(m@),
            ParamValue::Batch(rows) => Arg::Batch(views(rows@)),
            ParamValue::String(s) => Arg::Str(s@),
            ParamValue::I64(n) => Arg::I64(*n),
            ParamValue::F64(b) => Arg::F64(*b),
            ParamValue::Bool(b) => Arg::Bool(*b),
            ParamValue::Null => Arg::Null,
        }
    }
}

/// The label of a kind of parameter value.
pub open spec fn arg_kind(a: Arg) -> Seq<char> {
    match a {
        Arg::Id(_) => "Id"@,
        Arg::Vector(_) => "Vector"@,
        Arg::Metadata(_) => "Metadata"@,
        Arg::Batch(_) => "Batch"@,
        Arg::Str(_) => "String"@,
        Arg::I64(_) => "I64"@,
        Arg::F64(_) => "F64"@,
        Arg::Bool(_) => "Bool"@,
        Arg::Null => "Null"@,
    }
}

/// Static label for each [`ParamValue`] variant; used to build helpful "got
/// X, expected Y" error messages.
pub fn param_value_kind(value: &ParamValue) -> (r: &'static str)
    ensures
        r@ == arg_kind(value@),
{
    match value {
        ParamValue::Id(_) => "Id",
        ParamValue::Vector(_) => "Vector",
        ParamValue::Metadata(_) => "Metadata",
        ParamValue::Batch(_) => "Batch",
        ParamValue::String(_) => "String",
        ParamValue::I64(_) => "I64",
        ParamValue::F64(_) => "F64",
        ParamValue::Bool(_) => "Bool",
        ParamValue::Null => "Null",
    }
}

/// A named parameter value.
#[derive(Debug)]
pub struct NamedValue {
    /// The name, without `$`.
    pub name: String,
    /// The value.
    pub value: ParamValue,
}

/// Caller-supplied values for parameter slots.
///
/// Positional and named bindings can both be present in one set;
/// [`ParamRef::Positional`] is resolved against the positional list (1-based)
/// and [`ParamRef::Named`] against the named values, the latest one first.
#[derive(Debug)]
pub struct ParamBindings {
    positional: Vec<ParamValue>,
    named: Vec<NamedValue>,
}

/// Parameter bindings, as a model.
pub struct Bindings {
    pub positional: Seq<Arg>,
    pub named: Map<Seq<char>, Arg>,
}

/// The values that `vs` names; a later one replaces an earlier one.
pub open spec fn named_args(vs: Seq<NamedValue>) -> Map<Seq<char>, Arg>
    decreases vs.len(),
{
    if vs.len() == 0 {
        Map::empty()
    } else {
        named_args(vs.drop_last()).insert(vs.last().name@, vs.last().value@)
    }
}

impl View for ParamBindings {
    type V = Bindings;

    closed spec fn view(&self) -> Bindings {
        Bindings {
            positional: views(self.positional@),
            named: named_args(self.named@),
        }
    }
}

/// What the slot `p` is bound to.
pub open spec fn resolve_arg(b: Bindings, p: Param) -> Result<Arg, Failure> {
    match p {
        Param::Positional(n) => if n == 0 {
            Err(
                Failure::Execution(
                    "positional parameter $0 is invalid (slots are 1-based)"@,
                ),
            )
        } else if n <= b.positional.len() {
            Ok(b.positional[n - 1])
        } else {
            Err(
                Failure::Execution(
                    "positional parameter $"@ + numeral(n as nat) + " not bound (have "@ + numeral(
                        b.positional.len(),
                    ) + " value(s))"@,
                ),
            )
        },
        Param::Named(name) => if b.named.dom().contains(name) {
            Ok(b.named[name])
        } else {
            Err(Failure::Execution("named parameter $"@ + name + " not bound"@))
        },
    }
}

impl Default for ParamBindings {
    fn default() -> (r: ParamBindings)
        ensures
            r@ == (Bindings { positional: Seq::empty(), named: Map::empty() }),
    {
        ParamBindings::empty()
    }
}

impl ParamValue {
    /// A copy of the value.
    pub fn copy(&self) -> (r: ParamValue)
        ensures
            r@ == self@,
    {
        match self {
            ParamValue::Id(n) => ParamValue::Id(*n),
            ParamValue::Vector(v) => ParamValue::Vector(v.copy()),
            ParamValue::Metadata(m) => ParamValue::Metadata(m.copy()),
            ParamValue::Batch(rows) => ParamValue::Batch(copy_rows(rows)),
            ParamValue::String(s) => ParamValue::String(s.clone()),
            ParamValue::I64(n) => ParamValue::I64(*n),
            ParamValue::F64(b) => ParamValue::F64(*b),
            ParamValue::Bool(b) => ParamValue::Bool(*b),
            ParamValue::Null => ParamValue::Null,
        }
    }
}

/// Copies of rows, in order.
pub fn copy_rows(rows: &Vec<NewRow>) -> (r: Vec<NewRow>)
    ensures
        views(r@) == views(rows@),
{
    let ghost ms = views(rows@);
    let mut copies: Vec<NewRow> = Vec::new();
    let mut i: usize = 0;
    while i < rows.len()
        invariant
            i <= rows.len(),
            ms == views(rows@),
            views(copies@) =~= ms.take(i as int),
        decreases rows.len() - i,
    {
        let row: NewRow = rows[i].copy();
        let ghost before = copies@;
        copies.push(row);
        proof {
            assert(views(copies@) =~= views(before).push(row@));
            assert(ms[i as int] == rows@[i as int]@);
        }
        i = i + 1;
    }
    assert(ms.take(i as int) =~= ms);
    copies
}

impl Clone for ParamBindings {
    fn clone(&self) -> (r: ParamBindings)
        ensures
            r@ == self@,
    {
        let mut positional: Vec<ParamValue> = Vec::new();
        let mut i: usize = 0;
        while i < self.positional.len()
            invariant
                i <= self.positional.len(),
                views(positional@) =~= views(self.positional@).take(i as int),
            decreases self.positional.len() - i,
        {
            let v: ParamValue = self.positional[i].copy();
            let ghost before = positional@;
            positional.push(v);
            proof {
                assert(views(positional@) =~= views(before).push(v@));
                assert(views(self.positional@)[i as int] == self.positional@[i as int]@);
            }
            i = i + 1;
        }
        assert(views(positional@) =~= views(self.positional@));
        let mut named: Vec<NamedValue> = Vec::new();
        let mut j: usize = 0;
        assert(self.named@.take(0) =~= Seq::empty());
        while j < self.named.len()
            invariant
                j <= self.named.len(),
                named_args(named@) == named_args(self.named@.take(j as int)),
            decreases self.named.len() - j,
        {
            let value: ParamValue = self.named[j].value.copy();
            let name: String = self.named[j].name.clone();
            let ghost before = named@;
            named.push(NamedValue { name, value });
            proof {
                assert(named@.drop_last() =~= before);
                assert(self.named@.take(j + 1).drop_last() =~= self.named@.take(j as int));
            }
            j = j + 1;
        }
        assert(self.named@.take(j as int) =~= self.named@);
        ParamBindings { positional, named }
    }
}

impl ParamBindings {
    /// An empty binding set. Use for statements with no parameters.
    pub fn empty() -> (r: ParamBindings)
        ensures
            r@ == (Bindings { positional: Seq::empty(), named: Map::empty() }),
    {
        let r: ParamBindings = ParamBindings { positional: Vec::new(), named: Vec::new() };
        assert(r@.positional =~= Seq::empty());
        r
    }

    /// Build a binding set from a positional list. Index `i` of the list maps
    /// to source-level `$(i+1)`.
    pub fn positional(values: Vec<ParamValue>) -> (r: ParamBindings)
        ensures
            r@ == (Bindings { positional: views(values@), named: Map::empty() }),
    {
        ParamBindings { positional: values, named: Vec::new() }
    }

    /// Build a binding set from named values; a later value replaces an
    /// earlier one of the same name.
    pub fn named(values: Vec<NamedValue>) -> (r: ParamBindings)
        ensures
            r@ == (Bindings { positional: Seq::empty(), named: named_args(values@) }),
    {
        let r: ParamBindings = ParamBindings { positional: Vec::new(), named: values };
        assert(r@.positional =~= Seq::empty());
        r
    }

    /// Append a positional binding (1-based, so the first call binds `$1`, the
    /// second binds `$2`, etc.).
    pub fn with_positional(self, value: ParamValue) -> (r: ParamBindings)
        ensures
            r@ == (Bindings { positional: self@.positional.push(value@), named: self@.named }),
    {
        let ghost before = self.positional@;
        let ghost v = value@;
        let mut positional: Vec<ParamValue> = self.positional;
        positional.push(value);
        assert(views(positional@) =~= views(before).push(v));
        ParamBindings { positional, named: self.named }
    }

    /// Insert (or replace) a named binding.
    pub fn with_named(self, name: &str, value: ParamValue) -> (r: ParamBindings)
        ensures
            r@ == (Bindings {
                positional: self@.positional,
                named: self@.named.insert(name@, value@),
            }),
    {
        let ghost before = self.named@;
        let mut named: Vec<NamedValue> = self.named;
        named.push(NamedValue { name: name.to_owned(), value });
        assert(named@.drop_last() =~= before);
        ParamBindings { positional: self.positional, named }
    }

    /// The latest value of the given name.
    fn find(&self, name: &str) -> (r: Option<&ParamValue>)
        ensures
            match r {
                Some(v) => self@.named.dom().contains(name@) && self@.named[name@] == v@,
                None => !self@.named.dom().contains(name@),
            },
    {
        let mut i: usize = self.named.len();
        assert(self.named@.take(i as int) =~= self.named@);
        while i > 0
            invariant
                i <= self.named.len(),
                self@.named == named_args(self.named@),
                named_args(self.named@.take(i as int)).dom().contains(name@) == self@.named.dom().contains(
                    name@,
                ),
                self@.named.dom().contains(name@) ==> named_args(
                    self.named@.take(i as int),
                )[name@] == self@.named[name@],
            decreases i,
        {
            let j: usize = i - 1;
            proof {
                let t = self.named@.take(i as int);
                assert(t.drop_last() =~= self.named@.take(j as int));
                assert(t.last() == self.named@[j as int]);
            }
            if same_text(self.named[j].name.as_str(), name) {
                return Some(&self.named[j].value);
            }
            i = j;
        }
        None
    }

    /// Look up the value bound to a [`ParamRef`]. The error is
    /// [`KovaQueryError::Execution`] when the parameter slot isn't bound by
    /// this set.
    pub fn resolve(&self, p: &ParamRef) -> (r: Result<&ParamValue, KovaQueryError>)
        ensures
            match resolve_arg(self@, p@) {
                Ok(a) => r is Ok && r->Ok_0@ == a,
                Err(e) => r is Err && r->Err_0@ == e,
            },
    {
        match p {
            ParamRef::Positional(n) => {
                if *n == 0 {
                    return Err(
                        KovaQueryError::Execution(
                            "positional parameter $0 is invalid (slots are 1-based)".to_owned(),
                        ),
                    );
                }
                let count: usize = self.positional.len();
                if (*n as u64) <= (count as u64) {
                    return Ok(&self.positional[(*n - 1) as usize]);
                }
                let mut m: String = "positional parameter $".to_owned();
                push_numeral(&mut m, *n as u128);
                m.append(" not bound (have ");
                push_numeral(&mut m, count as u128);
                m.append(" value(s))");
                assert(m@ =~= "positional parameter $"@ + numeral(*n as nat) + " not bound (have "@
                    + numeral(count as nat) + " value(s))"@);
                Err(KovaQueryError::Execution(m))
            },
            ParamRef::Named(name) => match self.find(name.as_str()) {
                Some(v) => Ok(v),
                None => {
                    let mut m: String = "named parameter $".to_owned();
                    m.append(name.as_str());
                    m.append(" not bound");
                    assert(m@ =~= "named parameter $"@ + name@ + " not bound"@);
                    Err(KovaQueryError::Execution(m))
                },
            },
        }
    }
}

/// The `n`-th positional binding is what `$n` stands for; binding more values
/// changes nothing about those before.
pub proof fn law_positional(b: Bindings, a: Arg, n: u32)
    requires
        0 < n <= b.positional.len() + 1,
    ensures
        resolve_arg(
            Bindings { positional: b.positional.push(a), named: b.named },
            Param::Positional(n),
        ) == Ok::<Arg, Failure>(
            if n <= b.positional.len() {
                b.positional[n - 1]
            } else {
                a
            },
        ),
{
}

/// The latest binding of a name is what the name stands for; other names and
/// the positional slots keep their values.
pub proof fn law_named(b: Bindings, name: Seq<char>, a: Arg, p: Param)
    ensures
        ({
            let c = Bindings { positional: b.positional, named: b.named.insert(name, a) };
            resolve_arg(c, p) == if p == Param::Named(name) {
                Ok::<Arg, Failure>(a)
            } else {
                resolve_arg(b, p)
            }
        }),
{
}

/// Slots count from one. A slot or a name that is not bound is an error.
pub proof fn law_unbound(b: Bindings, n: u32, name: Seq<char>)
    ensures
        resolve_arg(b, Param::Positional(n)) is Ok <==> 1 <= n <= b.positional.len(),
        1 <= n <= b.positional.len() ==> resolve_arg(b, Param::Positional(n)) == Ok::<Arg, Failure>(
            b.positional[n - 1],
        ),
        resolve_arg(b, Param::Named(name)) is Ok <==> b.named.contains_key(name),
        b.named.contains_key(name) ==> resolve_arg(b, Param::Named(name)) == Ok::<Arg, Failure>(
            b.named[name],
        ),
        resolve_arg(b, Param::Positional(n)) matches Err(e) ==> e is Execution,
        resolve_arg(b, Param::Named(name)) matches Err(e) ==> e is Execution,
{
}

} // verus!
