//! The syntax tree of a request document.

use crate::pos::Positioned;
use crate::text::str_eq;
use crate::value::Value;
use crate::value::ValueModel;
use vstd::prelude::*;
use vstd::string::StringExecFns;

verus! {

/// A type reference: a name, a list of a type, or a type that excludes
/// null.
#[derive(Debug, PartialEq)]
pub enum Type {
    Named(String),
    List(Box<Type>),
    NonNull(Box<Type>),
}

/// What a [`Type`] holds.
pub enum TypeModel {
    Named(Seq<char>),
    List(Box<TypeModel>),
    NonNull(Box<TypeModel>),
}

/// What `t` holds.
pub open spec fn type_model(t: Type) -> TypeModel
    decreases t,
{
    match t {
        Type::Named(name) => TypeModel::Named(name@),
        Type::List(inner) => TypeModel::List(Box::new(type_model(*inner))),
        Type::NonNull(inner) => TypeModel::NonNull(Box::new(type_model(*inner))),
    }
}

impl DeepView for Type {
    type V = TypeModel;

    open spec fn deep_view(&self) -> TypeModel {
        type_model(*self)
    }
}

/// A type reference as it is written: `T`, `[T]`, `T!`.
pub open spec fn type_text(t: TypeModel) -> Seq<char>
    decreases t,
{
    match t {
        TypeModel::Named(name) => name,
        TypeModel::List(inner) => seq!['['] + type_text(*inner) + seq![']'],
        TypeModel::NonNull(inner) => type_text(*inner) + seq!['!'],
    }
}

impl Type {
    /// The type reference as it is written in a document.
    pub fn to_string(&self) -> (r: String)
        ensures
            r@ == type_text(self.deep_view()),
        decreases self,
    {
        proof {
            reveal_strlit("[");
            reveal_strlit("]");
            reveal_strlit("!");
        }
        match self {
            Type::Named(name) => name.clone(),
            Type::List(inner) => {
                let r = String::from_str("[").concat(inner.to_string().as_str()).concat("]");
                assert(r@ =~= type_text(self.deep_view()));
                r
            },
            Type::NonNull(inner) => {
                let r = inner.to_string().concat("!");
                assert(r@ =~= type_text(self.deep_view()));
                r
            },
        }
    }
}

/// The arguments of a field or a directive, as their models.
pub type ArgumentModels = Seq<(Positioned<Seq<char>>, Positioned<ValueModel>)>;

/// The index of the first argument named `name`, or the number of
/// arguments if there is none.
pub open spec fn argument_index(arguments: ArgumentModels, name: Seq<char>) -> int
    decreases arguments.len(),
{
    if arguments.len() == 0 {
        0
    } else if arguments[0].0.node == name {
        0
    } else {
        1 + argument_index(arguments.drop_first(), name)
    }
}

/// `argument_index` finds the first argument of the name, if there is one.
pub proof fn lemma_argument_index(arguments: ArgumentModels, name: Seq<char>)
    ensures
        0 <= argument_index(arguments, name) <= arguments.len(),
        argument_index(arguments, name) < arguments.len() ==> arguments[argument_index(
            arguments,
            name,
        )].0.node == name,
        forall|k: int|
            0 <= k < argument_index(arguments, name) ==> (#[trigger] arguments[k]).0.node != name,
    decreases arguments.len(),
{
    if arguments.len() > 0 && arguments[0].0.node != name {
        lemma_argument_index(arguments.drop_first(), name);
        let i = argument_index(arguments.drop_first(), name);
        assert forall|k: int| 0 <= k < 1 + i implies (#[trigger] arguments[k]).0.node != name by {
            if k > 0 {
                assert(arguments.drop_first()[k - 1] == arguments[k]);
            }
        }
        if i < arguments.drop_first().len() {
            assert(arguments.drop_first()[i] == arguments[i + 1]);
        }
    }
}

/// The value of the first argument named `name`.
pub fn find_argument<'a>(
    arguments: &'a Vec<(Positioned<String>, Positioned<Value>)>,
    name: &str,
) -> (r: Option<&'a Positioned<Value>>)
    ensures
        argument_index(arguments.deep_view(), name@) < arguments@.len() ==> r == Some(
            &arguments@[argument_index(arguments.deep_view(), name@)].1,
        ),
        argument_index(arguments.deep_view(), name@) >= arguments@.len() ==> r is None,
{
    let mut i: usize = 0;
    while i < arguments.len()
        invariant
            i <= arguments@.len(),
            forall|k: int| 0 <= k < i ==> (#[trigger] arguments.deep_view()[k]).0.node != name@,
        decreases arguments@.len() - i,
    {
        if str_eq(arguments[i].0.node.as_str(), name) {
            proof {
                lemma_argument_index(arguments.deep_view(), name@);
                assert(arguments.deep_view()[i as int].0.node == name@);
            }
            return Some(&arguments[i].1);
        }
        i += 1;
    }
    proof {
        lemma_argument_index(arguments.deep_view(), name@);
    }
    None
}

/// A directive: `@name(arguments)`.
#[derive(Debug)]
pub struct Directive {
    pub name: Positioned<String>,
    pub arguments: Vec<(Positioned<String>, Positioned<Value>)>,
}

/// What a [`Directive`] holds.
pub struct DirectiveModel {
    pub name: Positioned<Seq<char>>,
    pub arguments: ArgumentModels,
}

impl DeepView for Directive {
    type V = DirectiveModel;

    open spec fn deep_view(&self) -> DirectiveModel {
        DirectiveModel { name: self.name.deep_view(), arguments: self.arguments.deep_view() }
    }
}

impl Directive {
    /// The value of the first argument named `name`, if there is one.
    pub fn get_argument(&self, name: &str) -> (r: Option<&Positioned<Value>>)
        ensures
            argument_index(self.deep_view().arguments, name@) < self.arguments@.len() ==> r
                == Some(&self.arguments@[argument_index(self.deep_view().arguments, name@)].1),
            argument_index(self.deep_view().arguments, name@) >= self.arguments@.len() ==> r
                is None,
    {
        find_argument(&self.arguments, name)
    }
}

/// The kind of an operation.
#[derive(Debug, PartialEq, Eq, Copy, Clone, Structural)]
pub enum OperationType {
    Query,
    Mutation,
    Subscription,
}

/// The definition of a variable of an operation: `$name: Type = default`.
#[derive(Debug)]
pub struct VariableDefinition {
    pub name: Positioned<String>,
    pub var_type: Positioned<Type>,
    pub default_value: Option<Positioned<Value>>,
}

/// What a [`VariableDefinition`] holds.
pub struct VariableDefinitionModel {
    pub name: Positioned<Seq<char>>,
    pub var_type: Positioned<TypeModel>,
    pub default_value: Option<Positioned<ValueModel>>,
}

impl DeepView for VariableDefinition {
    type V = VariableDefinitionModel;

    open spec fn deep_view(&self) -> VariableDefinitionModel {
        VariableDefinitionModel {
            name: self.name.deep_view(),
            var_type: self.var_type.deep_view(),
            default_value: self.default_value.deep_view(),
        }
    }
}

/// The type that a fragment applies to: `on Type`.
#[derive(Debug)]
pub enum TypeCondition {
    On(Positioned<String>),
}

/// What a [`TypeCondition`] holds.
pub enum TypeConditionModel {
    On(Positioned<Seq<char>>),
}

impl DeepView for TypeCondition {
    type V = TypeConditionModel;

    open spec fn deep_view(&self) -> TypeConditionModel {
        match self {
            TypeCondition::On(name) => TypeConditionModel::On(name.deep_view()),
        }
    }
}

/// The selections between a pair of braces, in the order written.
#[derive(Debug, Default)]
pub struct SelectionSet {
    pub items: Vec<Positioned<Selection>>,
}

/// One selection: a field, the spread of a named fragment, or an inline
/// fragment.
#[derive(Debug)]
pub enum Selection {
    Field(Positioned<Field>),
    FragmentSpread(Positioned<FragmentSpread>),
    InlineFragment(Positioned<InlineFragment>),
}

/// A field: `alias: name(arguments) @directives { selections }`. A field
/// without braces has an empty selection set.
#[derive(Debug)]
pub struct Field {
    pub alias: Option<Positioned<String>>,
    pub name: Positioned<String>,
    pub arguments: Vec<(Positioned<String>, Positioned<Value>)>,
    pub directives: Vec<Positioned<Directive>>,
    pub selection_set: Positioned<SelectionSet>,
}

/// The spread of a named fragment: `...Name @directives`.
#[derive(Debug)]
pub struct FragmentSpread {
    pub fragment_name: Positioned<String>,
    pub directives: Vec<Positioned<Directive>>,
}

/// An inline fragment: `... on Type @directives { selections }`.
#[derive(Debug)]
pub struct InlineFragment {
    pub type_condition: Option<Positioned<TypeCondition>>,
    pub directives: Vec<Positioned<Directive>>,
    pub selection_set: Positioned<SelectionSet>,
}

/// What a [`SelectionSet`] holds.
pub struct SelectionSetModel {
    pub items: Seq<Positioned<SelectionModel>>,
}

/// What a [`Selection`] holds.
pub enum SelectionModel {
    Field(Positioned<FieldModel>),
    FragmentSpread(Positioned<FragmentSpreadModel>),
    InlineFragment(Positioned<InlineFragmentModel>),
}

/// What a [`Field`] holds.
pub struct FieldModel {
    pub alias: Option<Positioned<Seq<char>>>,
    pub name: Positioned<Seq<char>>,
    pub arguments: ArgumentModels,
    pub directives: Seq<Positioned<DirectiveModel>>,
    pub selection_set: Positioned<SelectionSetModel>,
}

/// What a [`FragmentSpread`] holds.
pub struct FragmentSpreadModel {
    pub fragment_name: Positioned<Seq<char>>,
    pub directives: Seq<Positioned<DirectiveModel>>,
}

/// What an [`InlineFragment`] holds.
pub struct InlineFragmentModel {
    pub type_condition: Option<Positioned<TypeConditionModel>>,
    pub directives: Seq<Positioned<DirectiveModel>>,
    pub selection_set: Positioned<SelectionSetModel>,
}

impl DeepView for FragmentSpread {
    type V = FragmentSpreadModel;

    open spec fn deep_view(&self) -> FragmentSpreadModel {
        FragmentSpreadModel {
            fragment_name: self.fragment_name.deep_view(),
            directives: self.directives.deep_view(),
        }
    }
}

/// What `s` holds.
pub open spec fn selection_set_model(s: SelectionSet) -> SelectionSetModel
    decreases s,
{
    SelectionSetModel {
        items: Seq::new(
            s.items@.len(),
            |i: int|
                if 0 <= i < s.items@.len() {
                    Positioned { pos: s.items@[i].pos, node: selection_model(s.items@[i].node) }
                } else {
                    arbitrary()
                },
        ),
    }
}

/// What `s` holds.
pub open spec fn selection_model(s: Selection) -> SelectionModel
    decreases s,
{
    match s {
        Selection::Field(f) => SelectionModel::Field(
            Positioned { pos: f.pos, node: field_model(f.node) },
        ),
        Selection::FragmentSpread(f) => SelectionModel::FragmentSpread(f.deep_view()),
        Selection::InlineFragment(f) => SelectionModel::InlineFragment(
            Positioned { pos: f.pos, node: inline_fragment_model(f.node) },
        ),
    }
}

/// What `f` holds.
pub open spec fn field_model(f: Field) -> FieldModel
    decreases f,
{
    FieldModel {
        alias: f.alias.deep_view(),
        name: f.name.deep_view(),
        arguments: f.arguments.deep_view(),
        directives: f.directives.deep_view(),
        selection_set: Positioned {
            pos: f.selection_set.pos,
            node: selection_set_model(f.selection_set.node),
        },
    }
}

/// What `f` holds.
pub open spec fn inline_fragment_model(f: InlineFragment) -> InlineFragmentModel
    decreases f,
{
    InlineFragmentModel {
        type_condition: f.type_condition.deep_view(),
        directives: f.directives.deep_view(),
        selection_set: Positioned {
            pos: f.selection_set.pos,
            node: selection_set_model(f.selection_set.node),
        },
    }
}

impl DeepView for SelectionSet {
    type V = SelectionSetModel;

    open spec fn deep_view(&self) -> SelectionSetModel {
        selection_set_model(*self)
    }
}

impl DeepView for Selection {
    type V = SelectionModel;

    open spec fn deep_view(&self) -> SelectionModel {
        selection_model(*self)
    }
}

impl DeepView for Field {
    type V = FieldModel;

    open spec fn deep_view(&self) -> FieldModel {
        field_model(*self)
    }
}

impl DeepView for InlineFragment {
    type V = InlineFragmentModel;

    open spec fn deep_view(&self) -> InlineFragmentModel {
        inline_fragment_model(*self)
    }
}

/// The selections of a set are the models of its items.
pub proof fn lemma_selection_set_items(s: SelectionSet)
    ensures
        s.deep_view().items == s.items.deep_view(),
{
    assert(s.deep_view().items =~= s.items.deep_view());
}

impl Field {
    /// The value of the first argument named `name`, if there is one.
    pub fn get_argument(&self, name: &str) -> (r: Option<&Positioned<Value>>)
        ensures
            argument_index(self.deep_view().arguments, name@) < self.arguments@.len() ==> r
                == Some(&self.arguments@[argument_index(self.deep_view().arguments, name@)].1),
            argument_index(self.deep_view().arguments, name@) >= self.arguments@.len() ==> r
                is None,
    {
        find_argument(&self.arguments, name)
    }
}

/// The definition of a named fragment:
/// `fragment Name on Type @directives { selections }`.
#[derive(Debug)]
pub struct FragmentDefinition {
    pub name: Positioned<String>,
    pub type_condition: Positioned<TypeCondition>,
    pub directives: Vec<Positioned<Directive>>,
    pub selection_set: Positioned<SelectionSet>,
}

/// What a [`FragmentDefinition`] holds.
pub struct FragmentDefinitionModel {
    pub name: Positioned<Seq<char>>,
    pub type_condition: Positioned<TypeConditionModel>,
    pub directives: Seq<Positioned<DirectiveModel>>,
    pub selection_set: Positioned<SelectionSetModel>,
}

impl DeepView for FragmentDefinition {
    type V = FragmentDefinitionModel;

    open spec fn deep_view(&self) -> FragmentDefinitionModel {
        FragmentDefinitionModel {
            name: self.name.deep_view(),
            type_condition: self.type_condition.deep_view(),
            directives: self.directives.deep_view(),
            selection_set: self.selection_set.deep_view(),
        }
    }
}

/// A query written with its keyword.
#[derive(Debug)]
pub struct Query {
    pub name: Option<Positioned<String>>,
    pub variable_definitions: Vec<Positioned<VariableDefinition>>,
    pub directives: Vec<Positioned<Directive>>,
    pub selection_set: Positioned<SelectionSet>,
}

/// A mutation.
#[derive(Debug)]
pub struct Mutation {
    pub name: Option<Positioned<String>>,
    pub variable_definitions: Vec<Positioned<VariableDefinition>>,
    pub directives: Vec<Positioned<Directive>>,
    pub selection_set: Positioned<SelectionSet>,
}

/// A subscription.
#[derive(Debug)]
pub struct Subscription {
    pub name: Option<Positioned<String>>,
    pub variable_definitions: Vec<Positioned<VariableDefinition>>,
    pub directives: Vec<Positioned<Directive>>,
    pub selection_set: Positioned<SelectionSet>,
}

/// What a [`Query`], a [`Mutation`] or a [`Subscription`] holds.
pub struct OperationModel {
    pub name: Option<Positioned<Seq<char>>>,
    pub variable_definitions: Seq<Positioned<VariableDefinitionModel>>,
    pub directives: Seq<Positioned<DirectiveModel>>,
    pub selection_set: Positioned<SelectionSetModel>,
}

impl DeepView for Query {
    type V = OperationModel;

    open spec fn deep_view(&self) -> OperationModel {
        OperationModel {
            name: self.name.deep_view(),
            variable_definitions: self.variable_definitions.deep_view(),
            directives: self.directives.deep_view(),
            selection_set: self.selection_set.deep_view(),
        }
    }
}

impl DeepView for Mutation {
    type V = OperationModel;

    open spec fn deep_view(&self) -> OperationModel {
        OperationModel {
            name: self.name.deep_view(),
            variable_definitions: self.variable_definitions.deep_view(),
            directives: self.directives.deep_view(),
            selection_set: self.selection_set.deep_view(),
        }
    }
}

impl DeepView for Subscription {
    type V = OperationModel;

    open spec fn deep_view(&self) -> OperationModel {
        OperationModel {
            name: self.name.deep_view(),
            variable_definitions: self.variable_definitions.deep_view(),
            directives: self.directives.deep_view(),
            selection_set: self.selection_set.deep_view(),
        }
    }
}

/// The definition of an operation: a bare selection set, which is a query
/// without a name, or one of the three kinds written with its keyword.
#[derive(Debug)]
pub enum OperationDefinition {
    SelectionSet(Positioned<SelectionSet>),
    Query(Positioned<Query>),
    Mutation(Positioned<Mutation>),
    Subscription(Positioned<Subscription>),
}

/// What an [`OperationDefinition`] holds.
pub enum OperationDefinitionModel {
    SelectionSet(Positioned<SelectionSetModel>),
    Query(Positioned<OperationModel>),
    Mutation(Positioned<OperationModel>),
    Subscription(Positioned<OperationModel>),
}

impl DeepView for OperationDefinition {
    type V = OperationDefinitionModel;

    open spec fn deep_view(&self) -> OperationDefinitionModel {
        match self {
            OperationDefinition::SelectionSet(s) => OperationDefinitionModel::SelectionSet(
                s.deep_view(),
            ),
            OperationDefinition::Query(q) => OperationDefinitionModel::Query(q.deep_view()),
            OperationDefinition::Mutation(m) => OperationDefinitionModel::Mutation(m.deep_view()),
            OperationDefinition::Subscription(s) => OperationDefinitionModel::Subscription(
                s.deep_view(),
            ),
        }
    }
}

/// A top-level definition of a document.
#[derive(Debug)]
pub enum Definition {
    Operation(Positioned<OperationDefinition>),
    Fragment(Positioned<FragmentDefinition>),
}

/// What a [`Definition`] holds.
pub enum DefinitionModel {
    Operation(Positioned<OperationDefinitionModel>),
    Fragment(Positioned<FragmentDefinitionModel>),
}

impl DeepView for Definition {
    type V = DefinitionModel;

    open spec fn deep_view(&self) -> DefinitionModel {
        match self {
            Definition::Operation(o) => DefinitionModel::Operation(o.deep_view()),
            Definition::Fragment(f) => DefinitionModel::Fragment(f.deep_view()),
        }
    }
}

} // verus!
