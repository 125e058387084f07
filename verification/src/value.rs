//! GraphQL values.

use crate::text::str_eq;
use crate::text::to_chars;
use vstd::prelude::*;

verus! {

/// A value as it is written in a document. A floating-point literal is
/// kept as the text that was written. An object keeps its fields in the
/// order of their names, each name once, so that two objects are equal
/// exactly if they map the same names to equal values.
#[derive(Debug, PartialEq)]
pub enum Value {
    Null,
    Variable(String),
    Int(i64),
    Float(String),
    String(String),
    Boolean(bool),
    Enum(String),
    List(Vec<Value>),
    Object(Vec<(String, Value)>),
}

/// What a [`Value`] holds.
pub enum ValueModel {
    Null,
    Variable(Seq<char>),
    Int(i64),
    Float(Seq<char>),
    String(Seq<char>),
    Boolean(bool),
    Enum(Seq<char>),
    List(Seq<ValueModel>),
    Object(Seq<(Seq<char>, ValueModel)>),
}

/// What `v` holds.
pub open spec fn value_model(v: Value) -> ValueModel
    decreases v,
{
    match v {
        Value::Null => ValueModel::Null,
        Value::Variable(name) => ValueModel::Variable(name@),
        Value::Int(n) => ValueModel::Int(n),
        Value::Float(text) => ValueModel::Float(text@),
        Value::String(text) => ValueModel::String(text@),
        Value::Boolean(b) => ValueModel::Boolean(b),
        Value::Enum(name) => ValueModel::Enum(name@),
        Value::List(items) => ValueModel::List(
            Seq::new(
                items@.len(),
                |i: int|
                    if 0 <= i < items@.len() {
                        value_model(items@[i])
                    } else {
                        ValueModel::Null
                    },
            ),
        ),
        Value::Object(fields) => ValueModel::Object(
            Seq::new(
                fields@.len(),
                |i: int|
                    if 0 <= i < fields@.len() {
                        (fields@[i].0@, value_model(fields@[i].1))
                    } else {
                        (Seq::empty(), ValueModel::Null)
                    },
            ),
        ),
    }
}

impl DeepView for Value {
    type V = ValueModel;

    open spec fn deep_view(&self) -> ValueModel {
        value_model(*self)
    }
}

impl Clone for Value {
    /// A copy that holds the same value.
    fn clone(&self) -> (r: Self)
        ensures
            r.deep_view() == self.deep_view(),
        decreases self,
    {
        match self {
            Value::Null => Value::Null,
            Value::Variable(name) => Value::Variable(name.clone()),
            Value::Int(n) => Value::Int(*n),
            Value::Float(text) => Value::Float(text.clone()),
            Value::String(text) => Value::String(text.clone()),
            Value::Boolean(b) => Value::Boolean(*b),
            Value::Enum(name) => Value::Enum(name.clone()),
            Value::List(items) => {
                let mut copy: Vec<Value> = Vec::new();
                let mut i: usize = 0;
                while i < items.len()
                    invariant
                        i <= items@.len(),
                        copy@.len() == i,
                        *self == Value::List(*items),
                        forall|k: int|
                            0 <= k < items@.len() ==> decreases_to!(self => #[trigger] items@[k]),
                        forall|k: int|
                            0 <= k < i ==> (#[trigger] copy@[k]).deep_view() == items@[k].deep_view(),
                    decreases items@.len() - i,
                {
                    copy.push(items[i].clone());
                    i += 1;
                }
                let r = Value::List(copy);
                assert(r.deep_view()->List_0 =~= self.deep_view()->List_0);
                r
            },
            Value::Object(fields) => {
                let mut copy: Vec<(String, Value)> = Vec::new();
                let mut i: usize = 0;
                while i < fields.len()
                    invariant
                        i <= fields@.len(),
                        copy@.len() == i,
                        *self == Value::Object(*fields),
                        forall|k: int|
                            0 <= k < fields@.len() ==> decreases_to!(self => (#[trigger] fields@[k]).1),
                        forall|k: int|
                            0 <= k < i ==> (#[trigger] copy@[k]).0@ == fields@[k].0@
                                && copy@[k].1.deep_view() == fields@[k].1.deep_view(),
                    decreases fields@.len() - i,
                {
                    copy.push((fields[i].0.clone(), fields[i].1.clone()));
                    i += 1;
                }
                let r = Value::Object(copy);
                assert(r.deep_view()->Object_0 =~= self.deep_view()->Object_0);
                r
            },
        }
    }
}

/// Whether the name `a` comes before the name `b`: at the first place
/// where they differ `a` has the smaller character, or `a` ends there
/// and `b` goes on.
pub open spec fn name_lt(a: Seq<char>, b: Seq<char>) -> bool
    decreases a.len(),
{
    if b.len() == 0 {
        false
    } else if a.len() == 0 {
        true
    } else if a[0] == b[0] {
        name_lt(a.drop_first(), b.drop_first())
    } else {
        a[0] < b[0]
    }
}

/// No name comes before itself.
pub proof fn lemma_name_lt_irreflexive(a: Seq<char>)
    ensures
        !name_lt(a, a),
    decreases a.len(),
{
    if a.len() > 0 {
        lemma_name_lt_irreflexive(a.drop_first());
    }
}

/// A name that comes before a second that comes before a third comes
/// before the third.
pub proof fn lemma_name_lt_transitive(a: Seq<char>, b: Seq<char>, c: Seq<char>)
    requires
        name_lt(a, b),
        name_lt(b, c),
    ensures
        name_lt(a, c),
    decreases a.len(),
{
    if a.len() > 0 && a[0] == b[0] && b[0] == c[0] {
        lemma_name_lt_transitive(a.drop_first(), b.drop_first(), c.drop_first());
    }
}

/// Of two names that differ, one comes before the other.
pub proof fn lemma_name_lt_total(a: Seq<char>, b: Seq<char>)
    ensures
        name_lt(a, b) || a == b || name_lt(b, a),
    decreases a.len(),
{
    if a.len() > 0 && b.len() > 0 && a[0] == b[0] {
        lemma_name_lt_total(a.drop_first(), b.drop_first());
        if a.drop_first() == b.drop_first() {
            assert(a =~= seq![a[0]] + a.drop_first());
            assert(b =~= seq![b[0]] + b.drop_first());
        }
    } else if a.len() == 0 && b.len() == 0 {
        assert(a =~= b);
    }
}

/// The names of the fields come one before the next, so that no two
/// fields have the same name.
pub open spec fn sorted_names(fields: Seq<(Seq<char>, ValueModel)>) -> bool {
    forall|i: int, j: int|
        0 <= i < j < fields.len() ==> name_lt((#[trigger] fields[i]).0, (#[trigger] fields[j]).0)
}

/// Whether every object in `v`, at any depth, has its fields in the order
/// of their names, each name once.
pub open spec fn well_formed(v: ValueModel) -> bool
    decreases v,
{
    match v {
        ValueModel::List(items) => forall|i: int|
            0 <= i < items.len() ==> well_formed(#[trigger] items[i]),
        ValueModel::Object(fields) => sorted_names(fields) && forall|i: int|
            0 <= i < fields.len() ==> well_formed((#[trigger] fields[i]).1),
        _ => true,
    }
}

/// The index of the first field of `fields` whose name does not come
/// before `name`, or the number of fields if there is none.
pub open spec fn field_index(fields: Seq<(Seq<char>, ValueModel)>, name: Seq<char>) -> int
    decreases fields.len(),
{
    if fields.len() == 0 {
        0
    } else if name_lt(fields[0].0, name) {
        1 + field_index(fields.drop_first(), name)
    } else {
        0
    }
}

/// The fields of an object after `name` is set to `value`: a field of that
/// name takes the new value, and a new name goes where the order of the
/// names puts it.
pub open spec fn with_field(
    fields: Seq<(Seq<char>, ValueModel)>,
    name: Seq<char>,
    value: ValueModel,
) -> Seq<(Seq<char>, ValueModel)> {
    let i = field_index(fields, name);
    if i < fields.len() && fields[i].0 == name {
        fields.update(i, (name, value))
    } else {
        fields.insert(i, (name, value))
    }
}

/// `field_index` finds the place of a name among the fields: the names in
/// front of it come before the name, and the name at it does not.
pub proof fn lemma_field_index(fields: Seq<(Seq<char>, ValueModel)>, name: Seq<char>)
    ensures
        0 <= field_index(fields, name) <= fields.len(),
        field_index(fields, name) < fields.len() ==> !name_lt(
            fields[field_index(fields, name)].0,
            name,
        ),
        forall|k: int|
            0 <= k < field_index(fields, name) ==> name_lt((#[trigger] fields[k]).0, name),
    decreases fields.len(),
{
    if fields.len() > 0 && name_lt(fields[0].0, name) {
        lemma_field_index(fields.drop_first(), name);
        let i = field_index(fields.drop_first(), name);
        assert forall|k: int| 0 <= k < 1 + i implies name_lt((#[trigger] fields[k]).0, name) by {
            if k > 0 {
                assert(fields.drop_first()[k - 1] == fields[k]);
            }
        }
        if i < fields.drop_first().len() {
            assert(fields.drop_first()[i] == fields[i + 1]);
        }
    }
}

/// Setting a field keeps the names in order, and the value set under a
/// name is the one that the object then holds at the place of the name.
pub proof fn lemma_with_field(
    fields: Seq<(Seq<char>, ValueModel)>,
    name: Seq<char>,
    value: ValueModel,
)
    requires
        sorted_names(fields),
    ensures
        sorted_names(with_field(fields, name, value)),
        field_index(fields, name) < with_field(fields, name, value).len(),
        with_field(fields, name, value)[field_index(fields, name)] == (name, value),
        field_index(with_field(fields, name, value), name) == field_index(fields, name),
{
    lemma_field_index(fields, name);
    let after = with_field(fields, name, value);
    let i = field_index(fields, name);
    if i < fields.len() {
        lemma_name_lt_total(fields[i].0, name);
    }
    assert forall|a: int, b: int| 0 <= a < b < after.len() implies name_lt(
        (#[trigger] after[a]).0,
        (#[trigger] after[b]).0,
    ) by {
        if i < fields.len() && fields[i].0 == name {
            assert(name_lt(fields[a].0, fields[b].0));
        } else {
            if b < i {
                assert(name_lt(fields[a].0, fields[b].0));
            } else if b == i {
                assert(name_lt(fields[a].0, name));
            } else if a == i {
                assert(after[b] == fields[b - 1]);
                if b - 1 > i {
                    assert(name_lt(fields[i].0, fields[b - 1].0));
                    lemma_name_lt_transitive(name, fields[i].0, fields[b - 1].0);
                }
            } else if a < i {
                assert(after[b] == fields[b - 1]);
                assert(name_lt(fields[a].0, fields[b - 1].0));
            } else {
                assert(after[a] == fields[a - 1]);
                assert(after[b] == fields[b - 1]);
                assert(name_lt(fields[a - 1].0, fields[b - 1].0));
            }
        }
    }
    lemma_field_index(after, name);
    let j = field_index(after, name);
    lemma_name_lt_irreflexive(name);
    if j < i {
        assert(name_lt(after[j].0, after[i].0));
    } else if j > i {
        assert(name_lt(after[i].0, name));
    }
}

/// Setting a field to a well-formed value keeps an object well-formed.
pub proof fn lemma_with_field_well_formed(
    fields: Seq<(Seq<char>, ValueModel)>,
    name: Seq<char>,
    value: ValueModel,
)
    requires
        well_formed(ValueModel::Object(fields)),
        well_formed(value),
    ensures
        well_formed(ValueModel::Object(with_field(fields, name, value))),
{
    lemma_with_field(fields, name, value);
    lemma_field_index(fields, name);
    let after = with_field(fields, name, value);
    let at = field_index(fields, name);
    assert forall|i: int| 0 <= i < after.len() implies well_formed((#[trigger] after[i]).1) by {
        if i == at {
        } else if at < fields.len() && fields[at].0 == name {
            assert(well_formed(fields[i].1));
        } else if i < at {
            assert(well_formed(fields[i].1));
        } else {
            assert(after[i] == fields[i - 1]);
            assert(well_formed(fields[i - 1].1));
        }
    }
}

/// Whether the name `a` comes before the name `b`.
pub fn name_before(a: &str, b: &str) -> (r: bool)
    ensures
        r == name_lt(a@, b@),
{
    let x = to_chars(a);
    let y = to_chars(b);
    let mut i: usize = 0;
    assert(x@.skip(0) =~= x@ && y@.skip(0) =~= y@);
    loop
        invariant
            i <= x@.len(),
            i <= y@.len(),
            x@ == a@,
            y@ == b@,
            name_lt(a@, b@) == name_lt(x@.skip(i as int), y@.skip(i as int)),
        decreases x@.len() - i,
    {
        if i >= y.len() {
            return false;
        }
        if i >= x.len() {
            return true;
        }
        proof {
            assert(x@.skip(i as int).drop_first() =~= x@.skip(i + 1));
            assert(y@.skip(i as int).drop_first() =~= y@.skip(i + 1));
            assert(x@.skip(i as int)[0] == x@[i as int]);
            assert(y@.skip(i as int)[0] == y@[i as int]);
        }
        if x[i] != y[i] {
            return x[i] < y[i];
        }
        i += 1;
    }
}

/// Sets the field `name` of an object to `value`: a later value for a name
/// replaces the earlier one, and a new name goes where the order of the
/// names puts it.
pub fn object_insert(fields: &mut Vec<(String, Value)>, name: String, value: Value)
    ensures
        final(fields).deep_view() == with_field(
            old(fields).deep_view(),
            name@,
            value.deep_view(),
        ),
{
    let ghost before = fields.deep_view();
    let mut i: usize = 0;
    assert(before.skip(0) =~= before);
    while i < fields.len() && name_before(fields[i].0.as_str(), name.as_str())
        invariant
            i <= fields@.len(),
            *fields == *old(fields),
            before == fields.deep_view(),
            field_index(before, name@) == i + field_index(before.skip(i as int), name@),
        decreases fields@.len() - i,
    {
        proof {
            assert(before.skip(i as int).drop_first() =~= before.skip(i + 1));
            assert(before.skip(i as int)[0] == before[i as int]);
        }
        i += 1;
    }
    proof {
        if i < fields@.len() {
            assert(before.skip(i as int)[0] == before[i as int]);
        }
        assert(field_index(before, name@) == i);
    }
    if i < fields.len() && str_eq(fields[i].0.as_str(), name.as_str()) {
        fields.set(i, (name, value));
        assert(fields.deep_view() =~= with_field(before, name@, value.deep_view()));
    } else {
        fields.insert(i, (name, value));
        assert(fields.deep_view() =~= with_field(before, name@, value.deep_view()));
    }
}

} // verus!

