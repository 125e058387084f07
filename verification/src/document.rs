//! A parsed document, and the choice of the operation that a request
//! executes.

use crate::pos::Positioned;
use crate::query::Definition;
use crate::query::DefinitionModel;
use crate::query::FragmentDefinition;
use crate::query::FragmentDefinitionModel;
use crate::query::OperationDefinition;
use crate::query::OperationDefinitionModel;
use crate::query::OperationType;
use crate::query::SelectionSet;
use crate::query::SelectionSetModel;
use crate::query::VariableDefinition;
use crate::query::VariableDefinitionModel;
use crate::text::str_eq;
use vstd::prelude::*;

verus! {

/// Fragment definitions by name.
pub type FragmentTable = Map<Seq<char>, Positioned<FragmentDefinitionModel>>;

/// The table that holds each of `entries` under its name. Where a name
/// occurs more than once, the last entry of that name is the one held.
pub open spec fn table_of(entries: Seq<Positioned<FragmentDefinitionModel>>) -> FragmentTable
    decreases entries.len(),
{
    if entries.len() == 0 {
        Map::empty()
    } else {
        table_of(entries.drop_last()).insert(entries.last().node.name.node, entries.last())
    }
}

/// The index of the first of `entries` named `name`, or the number of
/// entries if there is none.
pub open spec fn fragment_index(
    entries: Seq<Positioned<FragmentDefinitionModel>>,
    name: Seq<char>,
) -> int
    decreases entries.len(),
{
    if entries.len() == 0 {
        0
    } else if entries[0].node.name.node == name {
        0
    } else {
        1 + fragment_index(entries.drop_first(), name)
    }
}

/// The entries of a table after `entry` is put into it: where an entry
/// has the name of `entry`, `entry` takes its place, and else `entry`
/// goes last.
pub open spec fn with_fragment(
    entries: Seq<Positioned<FragmentDefinitionModel>>,
    entry: Positioned<FragmentDefinitionModel>,
) -> Seq<Positioned<FragmentDefinitionModel>> {
    let i = fragment_index(entries, entry.node.name.node);
    if i < entries.len() {
        entries.update(i, entry)
    } else {
        entries.push(entry)
    }
}

/// `fragment_index` finds the first entry of the name, if there is one.
pub proof fn lemma_fragment_index(entries: Seq<Positioned<FragmentDefinitionModel>>, name: Seq<char>)
    ensures
        0 <= fragment_index(entries, name) <= entries.len(),
        fragment_index(entries, name) < entries.len() ==> entries[fragment_index(
            entries,
            name,
        )].node.name.node == name,
        forall|k: int|
            0 <= k < fragment_index(entries, name) ==> (#[trigger] entries[k]).node.name.node
                != name,
    decreases entries.len(),
{
    if entries.len() > 0 && entries[0].node.name.node != name {
        lemma_fragment_index(entries.drop_first(), name);
        let i = fragment_index(entries.drop_first(), name);
        assert forall|k: int| 0 <= k < 1 + i implies (#[trigger] entries[k]).node.name.node
            != name by {
            if k > 0 {
                assert(entries.drop_first()[k - 1] == entries[k]);
            }
        }
        if i < entries.drop_first().len() {
            assert(entries.drop_first()[i] == entries[i + 1]);
        }
    }
}

/// No two entries have the same name.
pub open spec fn distinct_fragments(entries: Seq<Positioned<FragmentDefinitionModel>>) -> bool {
    forall|i: int, j: int|
        0 <= i < j < entries.len() ==> (#[trigger] entries[i]).node.name.node != (
        #[trigger] entries[j]).node.name.node
}

/// A name is in the table exactly if an entry has it.
pub proof fn lemma_table_names(entries: Seq<Positioned<FragmentDefinitionModel>>, name: Seq<char>)
    ensures
        table_of(entries).contains_key(name) <==> exists|i: int|
            0 <= i < entries.len() && (#[trigger] entries[i]).node.name.node == name,
    decreases entries.len(),
{
    if entries.len() > 0 {
        let front = entries.drop_last();
        lemma_table_names(front, name);
        if table_of(entries).contains_key(name) {
            if entries.last().node.name.node == name {
                assert(entries[entries.len() - 1].node.name.node == name);
            } else {
                let i = choose|i: int|
                    0 <= i < front.len() && (#[trigger] front[i]).node.name.node == name;
                assert(entries[i].node.name.node == name);
            }
        }
        if exists|i: int| 0 <= i < entries.len() && (#[trigger] entries[i]).node.name.node == name {
            let i = choose|i: int|
                0 <= i < entries.len() && (#[trigger] entries[i]).node.name.node == name;
            if i < front.len() {
                assert(front[i].node.name.node == name);
            }
        }
    }
}

/// Among entries with distinct names, the table holds each entry under its
/// name.
pub proof fn lemma_table_entry(entries: Seq<Positioned<FragmentDefinitionModel>>, i: int)
    requires
        distinct_fragments(entries),
        0 <= i < entries.len(),
    ensures
        table_of(entries).contains_key(entries[i].node.name.node),
        table_of(entries)[entries[i].node.name.node] == entries[i],
    decreases entries.len(),
{
    let front = entries.drop_last();
    if i < entries.len() - 1 {
        assert(distinct_fragments(front)) by {
            assert forall|a: int, b: int| 0 <= a < b < front.len() implies (
            #[trigger] front[a]).node.name.node != (#[trigger] front[b]).node.name.node by {
                assert(entries[a].node.name.node != entries[b].node.name.node);
            }
        }
        lemma_table_entry(front, i);
        assert(front[i] == entries[i]);
        assert(entries[i].node.name.node != entries[entries.len() - 1].node.name.node);
    }
}

/// Replacing an entry by one of the same name puts the new entry under
/// that name.
pub proof fn lemma_table_update(
    entries: Seq<Positioned<FragmentDefinitionModel>>,
    i: int,
    entry: Positioned<FragmentDefinitionModel>,
)
    requires
        distinct_fragments(entries),
        0 <= i < entries.len(),
        entries[i].node.name.node == entry.node.name.node,
    ensures
        distinct_fragments(entries.update(i, entry)),
        table_of(entries.update(i, entry)) == table_of(entries).insert(
            entry.node.name.node,
            entry,
        ),
    decreases entries.len(),
{
    let after = entries.update(i, entry);
    let front = entries.drop_last();
    let last = entries.len() - 1;
    assert forall|a: int, b: int| 0 <= a < b < after.len() implies (
    #[trigger] after[a]).node.name.node != (#[trigger] after[b]).node.name.node by {
        assert(entries[a].node.name.node != entries[b].node.name.node);
    }
    if i == last {
        assert(after.drop_last() =~= front);
        assert(table_of(after) =~= table_of(entries).insert(entry.node.name.node, entry));
    } else {
        assert(distinct_fragments(front)) by {
            assert forall|a: int, b: int| 0 <= a < b < front.len() implies (
            #[trigger] front[a]).node.name.node != (#[trigger] front[b]).node.name.node by {
                assert(entries[a].node.name.node != entries[b].node.name.node);
            }
        }
        lemma_table_update(front, i, entry);
        assert(after.drop_last() =~= front.update(i, entry));
        assert(after.last() == entries.last());
        assert(entries[i].node.name.node != entries[last].node.name.node);
        assert(table_of(after) =~= table_of(entries).insert(entry.node.name.node, entry));
    }
}

/// The table of a document's named fragments. Each name is held once; the
/// entries keep the order in which their names first came.
#[derive(Debug, Default)]
pub struct FragmentsMap {
    entries: Vec<Positioned<FragmentDefinition>>,
}

impl View for FragmentsMap {
    type V = FragmentTable;

    closed spec fn view(&self) -> FragmentTable {
        table_of(self.entries.deep_view())
    }
}

impl FragmentsMap {
    #[verifier::type_invariant]
    spec fn names_are_distinct(&self) -> bool {
        distinct_fragments(self.entries.deep_view())
    }

    /// The entries in the order that [`FragmentsMap::entry`] numbers them.
    pub closed spec fn entries(&self) -> Seq<Positioned<FragmentDefinitionModel>> {
        self.entries.deep_view()
    }

    /// The entries as they are stored.
    pub closed spec fn stored(&self) -> Seq<Positioned<FragmentDefinition>> {
        self.entries@
    }

    /// An empty table.
    pub fn new() -> (r: Self)
        ensures
            r@ == Map::<Seq<char>, Positioned<FragmentDefinitionModel>>::empty(),
            r.entries().len() == 0,
    {
        FragmentsMap { entries: Vec::new() }
    }

    /// The number of fragments in the table.
    pub fn len(&self) -> (r: usize)
        ensures
            r == self.entries().len(),
    {
        self.entries.len()
    }

    /// Whether the table holds no fragment.
    pub fn is_empty(&self) -> (r: bool)
        ensures
            r == (self.entries().len() == 0),
    {
        self.entries.len() == 0
    }

    /// The fragment with number `i`.
    pub fn entry(&self, i: usize) -> (r: &Positioned<FragmentDefinition>)
        requires
            i < self.entries().len(),
        ensures
            *r == self.stored()[i as int],
            r.deep_view() == self.entries()[i as int],
            self@.contains_key(r.deep_view().node.name.node),
            self@[r.deep_view().node.name.node] == r.deep_view(),
    {
        proof {
            use_type_invariant(self);
            lemma_table_entry(self.entries.deep_view(), i as int);
        }
        &self.entries[i]
    }

    fn position(&self, name: &str) -> (r: Option<usize>)
        ensures
            match r {
                Some(i) => i < self.entries@.len() && self.entries.deep_view()[i as int].node.name.node
                    == name@ && i == fragment_index(self.entries.deep_view(), name@),
                None => !self@.contains_key(name@) && fragment_index(
                    self.entries.deep_view(),
                    name@,
                ) == self.entries@.len(),
            },
    {
        let mut i: usize = 0;
        while i < self.entries.len()
            invariant
                i <= self.entries@.len(),
                forall|k: int|
                    0 <= k < i ==> (#[trigger] self.entries.deep_view()[k]).node.name.node != name@,
            decreases self.entries@.len() - i,
        {
            if str_eq(self.entries[i].node.name.node.as_str(), name) {
                proof {
                    lemma_fragment_index(self.entries.deep_view(), name@);
                }
                return Some(i);
            }
            i += 1;
        }
        proof {
            lemma_table_names(self.entries.deep_view(), name@);
            lemma_fragment_index(self.entries.deep_view(), name@);
        }
        None
    }

    /// Whether the table holds a fragment named `name`.
    pub fn contains_key(&self, name: &str) -> (r: bool)
        ensures
            r == self@.contains_key(name@),
    {
        match self.position(name) {
            Some(i) => {
                proof {
                    use_type_invariant(self);
                    lemma_table_entry(self.entries.deep_view(), i as int);
                }
                true
            },
            None => false,
        }
    }

    /// The fragment named `name`, if the table holds one.
    pub fn get(&self, name: &str) -> (r: Option<&Positioned<FragmentDefinition>>)
        ensures
            self@.contains_key(name@) ==> r is Some && r->0.deep_view() == self@[name@],
            !self@.contains_key(name@) ==> r is None,
    {
        match self.position(name) {
            Some(i) => {
                proof {
                    use_type_invariant(self);
                    lemma_table_entry(self.entries.deep_view(), i as int);
                }
                Some(&self.entries[i])
            },
            None => None,
        }
    }

    /// Puts `fragment` into the table under its name, in place of a
    /// fragment of that name that the table held before.
    pub fn insert(&mut self, fragment: Positioned<FragmentDefinition>)
        ensures
            final(self)@ == old(self)@.insert(
                fragment.deep_view().node.name.node,
                fragment.deep_view(),
            ),
            final(self).entries() == with_fragment(old(self).entries(), fragment.deep_view()),
    {
        proof {
            use_type_invariant(&*self);
        }
        let ghost before = self.entries.deep_view();
        let ghost entry = fragment.deep_view();
        let found = self.position(fragment.node.name.node.as_str());
        let mut entries: Vec<Positioned<FragmentDefinition>> = Vec::new();
        core::mem::swap(&mut self.entries, &mut entries);
        match found {
            Some(i) => {
                proof {
                    lemma_table_update(before, i as int, entry);
                }
                entries.set(i, fragment);
                assert(entries.deep_view() =~= before.update(i as int, entry));
                self.entries = entries;
            },
            None => {
                proof {
                    lemma_table_names(before, entry.node.name.node);
                }
                entries.push(fragment);
                assert(entries.deep_view() =~= before.push(entry));
                assert(before.push(entry).drop_last() =~= before);
                assert forall|a: int, b: int|
                    0 <= a < b < before.push(entry).len() implies (#[trigger] before.push(
                    entry,
                )[a]).node.name.node != (#[trigger] before.push(entry)[b]).node.name.node by {
                    if b < before.len() {
                        assert(before[a].node.name.node != before[b].node.name.node);
                    } else {
                        assert(before[a].node.name.node != entry.node.name.node);
                    }
                }
                self.entries = entries;
            },
        }
    }
}

/// The operation that a request executes.
#[derive(Debug)]
pub struct CurrentOperation {
    pub ty: OperationType,
    pub variable_definitions: Vec<Positioned<VariableDefinition>>,
    pub selection_set: Positioned<SelectionSet>,
}

/// What a [`CurrentOperation`] holds.
pub struct CurrentOperationModel {
    pub ty: OperationType,
    pub variable_definitions: Seq<Positioned<VariableDefinitionModel>>,
    pub selection_set: Positioned<SelectionSetModel>,
}

impl DeepView for CurrentOperation {
    type V = CurrentOperationModel;

    open spec fn deep_view(&self) -> CurrentOperationModel {
        CurrentOperationModel {
            ty: self.ty,
            variable_definitions: self.variable_definitions.deep_view(),
            selection_set: self.selection_set.deep_view(),
        }
    }
}

/// The name that a request asks for, as a sequence of characters.
pub open spec fn requested_name(operation_name: Option<&str>) -> Option<Seq<char>> {
    match operation_name {
        Some(name) => Some(name@),
        None => None,
    }
}

/// Whether an operation with the given name serves a request for
/// `requested`: it does if it has no name, if no name is asked for, or if
/// the two names are equal.
pub open spec fn name_serves(name: Option<Positioned<Seq<char>>>, requested: Option<Seq<char>>) -> bool {
    name is None || requested is None || name->0.node == requested->0
}

/// Whether the definition of an operation serves a request for
/// `requested`. A bare selection set serves every request.
pub open spec fn serves(operation: OperationDefinitionModel, requested: Option<Seq<char>>) -> bool {
    match operation {
        OperationDefinitionModel::SelectionSet(_) => true,
        OperationDefinitionModel::Query(q) => name_serves(q.node.name, requested),
        OperationDefinitionModel::Mutation(m) => name_serves(m.node.name, requested),
        OperationDefinitionModel::Subscription(s) => name_serves(s.node.name, requested),
    }
}

/// Whether `definition` is an operation that serves a request for
/// `requested`.
pub open spec fn is_candidate(definition: DefinitionModel, requested: Option<Seq<char>>) -> bool {
    definition matches DefinitionModel::Operation(o) && serves(o.node, requested)
}

/// The operation to execute that the definition of an operation gives. A
/// bare selection set is a query without variables.
pub open spec fn as_current(operation: OperationDefinitionModel) -> CurrentOperationModel {
    match operation {
        OperationDefinitionModel::SelectionSet(s) => CurrentOperationModel {
            ty: OperationType::Query,
            variable_definitions: Seq::empty(),
            selection_set: s,
        },
        OperationDefinitionModel::Query(q) => CurrentOperationModel {
            ty: OperationType::Query,
            variable_definitions: q.node.variable_definitions,
            selection_set: q.node.selection_set,
        },
        OperationDefinitionModel::Mutation(m) => CurrentOperationModel {
            ty: OperationType::Mutation,
            variable_definitions: m.node.variable_definitions,
            selection_set: m.node.selection_set,
        },
        OperationDefinitionModel::Subscription(s) => CurrentOperationModel {
            ty: OperationType::Subscription,
            variable_definitions: s.node.variable_definitions,
            selection_set: s.node.selection_set,
        },
    }
}

/// The operation that one pass over `definitions` chooses for a request
/// for `requested`: the first operation that serves it.
pub open spec fn chosen(
    definitions: Seq<Positioned<DefinitionModel>>,
    requested: Option<Seq<char>>,
) -> Option<CurrentOperationModel>
    decreases definitions.len(),
{
    if definitions.len() == 0 {
        None
    } else {
        match chosen(definitions.drop_last(), requested) {
            Some(operation) => Some(operation),
            None => match definitions.last().node {
                DefinitionModel::Operation(o) => if serves(o.node, requested) {
                    Some(as_current(o.node))
                } else {
                    None
                },
                DefinitionModel::Fragment(_) => None,
            },
        }
    }
}

/// The table of the fragments among `definitions`. A fragment takes the
/// place of an earlier one of the same name.
pub open spec fn fragments_of(definitions: Seq<Positioned<DefinitionModel>>) -> FragmentTable
    decreases definitions.len(),
{
    if definitions.len() == 0 {
        Map::empty()
    } else {
        match definitions.last().node {
            DefinitionModel::Operation(_) => fragments_of(definitions.drop_last()),
            DefinitionModel::Fragment(f) => fragments_of(definitions.drop_last()).insert(
                f.node.name.node,
                f,
            ),
        }
    }
}

/// The fragments among `definitions` in the order of their table: the
/// order in which their names first come.
pub open spec fn fragments_in_order_of(definitions: Seq<Positioned<DefinitionModel>>) -> Seq<
    Positioned<FragmentDefinitionModel>,
>
    decreases definitions.len(),
{
    if definitions.len() == 0 {
        Seq::empty()
    } else {
        match definitions.last().node {
            DefinitionModel::Operation(_) => fragments_in_order_of(definitions.drop_last()),
            DefinitionModel::Fragment(f) => with_fragment(
                fragments_in_order_of(definitions.drop_last()),
                f,
            ),
        }
    }
}

/// The operation of a document after resolution: the one it had, or else
/// the one chosen among its definitions.
pub open spec fn resolved(
    current: Option<CurrentOperationModel>,
    definitions: Seq<Positioned<DefinitionModel>>,
    requested: Option<Seq<char>>,
) -> Option<CurrentOperationModel> {
    match current {
        Some(operation) => Some(operation),
        None => chosen(definitions, requested),
    }
}

/// Of the operations that serve a request, the first in the document is
/// the one chosen; where none serves it, none is chosen.
pub proof fn lemma_first_candidate_is_chosen(
    definitions: Seq<Positioned<DefinitionModel>>,
    requested: Option<Seq<char>>,
)
    ensures
        chosen(definitions, requested) is None <==> forall|k: int|
            0 <= k < definitions.len() ==> !is_candidate(
                (#[trigger] definitions[k]).node,
                requested,
            ),
        forall|i: int|
            0 <= i < definitions.len() && is_candidate((#[trigger] definitions[i]).node, requested)
                && (forall|k: int|
                0 <= k < i ==> !is_candidate((#[trigger] definitions[k]).node, requested))
                ==> chosen(definitions, requested) == Some(
                as_current(definitions[i].node->Operation_0.node),
            ),
    decreases definitions.len(),
{
    if definitions.len() > 0 {
        let front = definitions.drop_last();
        let last = definitions.len() - 1;
        lemma_first_candidate_is_chosen(front, requested);
        assert forall|k: int| 0 <= k < front.len() implies front[k] == definitions[k] by {}
        if chosen(front, requested) is None {
            assert forall|k: int| 0 <= k < last implies !is_candidate(
                (#[trigger] definitions[k]).node,
                requested,
            ) by {
                assert(front[k] == definitions[k]);
            }
        } else {
            let k = choose|k: int|
                0 <= k < front.len() && is_candidate((#[trigger] front[k]).node, requested);
            assert(is_candidate(definitions[k].node, requested));
        }
        assert forall|i: int|
            0 <= i < definitions.len() && is_candidate((#[trigger] definitions[i]).node, requested)
                && (forall|k: int|
                0 <= k < i ==> !is_candidate(
                    (#[trigger] definitions[k]).node,
                    requested,
                )) implies chosen(definitions, requested) == Some(
            as_current(definitions[i].node->Operation_0.node),
        ) by {
            if i < last {
                assert(front[i] == definitions[i]);
                assert forall|k: int| 0 <= k < i implies !is_candidate(
                    (#[trigger] front[k]).node,
                    requested,
                ) by {
                    assert(front[k] == definitions[k]);
                }
            } else {
                assert forall|k: int| 0 <= k < front.len() implies !is_candidate(
                    (#[trigger] front[k]).node,
                    requested,
                ) by {
                    assert(front[k] == definitions[k]);
                }
            }
        }
    }
}

/// Where several fragments have one name, the table holds the last of
/// them: a fragment is the one held under its name if no fragment behind
/// it has that name.
pub proof fn lemma_later_fragment_wins(definitions: Seq<Positioned<DefinitionModel>>, j: int)
    requires
        0 <= j < definitions.len(),
        definitions[j].node is Fragment,
        forall|k: int|
            j < k < definitions.len() ==> !((#[trigger] definitions[k]).node matches DefinitionModel::Fragment(
                f,
            ) && f.node.name.node == definitions[j].node->Fragment_0.node.name.node),
    ensures
        fragments_of(definitions).contains_key(definitions[j].node->Fragment_0.node.name.node),
        fragments_of(definitions)[definitions[j].node->Fragment_0.node.name.node]
            == definitions[j].node->Fragment_0,
    decreases definitions.len(),
{
    let last = definitions.len() - 1;
    if j < last {
        let front = definitions.drop_last();
        assert(front[j] == definitions[j]);
        assert forall|k: int| j < k < front.len() implies !((
        #[trigger] front[k]).node matches DefinitionModel::Fragment(f) && f.node.name.node
            == front[j].node->Fragment_0.node.name.node) by {
            assert(front[k] == definitions[k]);
        }
        lemma_later_fragment_wins(front, j);
        assert(definitions[last] == definitions.last());
    }
}

/// A parsed request document: its definitions in the order written and,
/// once [`Document::retain_operation`] has resolved it, its fragments by
/// name and the operation to execute.
#[derive(Debug)]
pub struct Document {
    source: String,
    definitions: Vec<Positioned<Definition>>,
    fragments: FragmentsMap,
    current_operation: Option<CurrentOperation>,
}

fn name_is_served(name: &Option<Positioned<String>>, operation_name: Option<&str>) -> (r: bool)
    ensures
        r == name_serves(name.deep_view(), requested_name(operation_name)),
{
    match name {
        None => true,
        Some(own) => match operation_name {
            None => true,
            Some(asked) => str_eq(own.node.as_str(), asked),
        },
    }
}

impl Document {
    /// The text that the document was parsed from.
    pub closed spec fn source_text(&self) -> Seq<char> {
        self.source@
    }

    /// The definitions that are still to be resolved.
    pub closed spec fn definition_models(&self) -> Seq<Positioned<DefinitionModel>> {
        self.definitions.deep_view()
    }

    /// The fragments by name.
    pub closed spec fn fragment_table(&self) -> FragmentTable {
        self.fragments@
    }

    /// The operation to execute, once one is chosen.
    pub closed spec fn operation_model(&self) -> Option<CurrentOperationModel> {
        self.current_operation.deep_view()
    }

    /// The fragments in the order in which the table numbers them.
    pub closed spec fn fragments_in_order(&self) -> Seq<Positioned<FragmentDefinitionModel>> {
        self.fragments.entries()
    }


    /// A document of the given definitions that is not yet resolved: it
    /// has no fragments and no operation to execute.
    pub fn new(source: String, definitions: Vec<Positioned<Definition>>) -> (r: Self)
        ensures
            r.source_text() == source@,
            r.definition_models() == definitions.deep_view(),
            r.fragment_table() == Map::<Seq<char>, Positioned<FragmentDefinitionModel>>::empty(),
            r.fragments_in_order().len() == 0,
            r.operation_model() is None,
    {
        Document { source, definitions, fragments: FragmentsMap::new(), current_operation: None }
    }

    /// The definitions that are still to be resolved, in the order written.
    pub fn definitions(&self) -> (r: &[Positioned<Definition>])
        ensures
            r@.len() == self.definition_models().len(),
            forall|i: int|
                0 <= i < r@.len() ==> (#[trigger] r@[i]).deep_view() == self.definition_models()[i],
    {
        self.definitions.as_slice()
    }

    /// The fragments by name.
    pub fn fragments(&self) -> (r: &FragmentsMap)
        ensures
            r@ == self.fragment_table(),
            r.entries() == self.fragments_in_order(),
    {
        &self.fragments
    }

    /// Whether an operation to execute has been chosen.
    pub fn has_operation(&self) -> (r: bool)
        ensures
            r == self.operation_model() is Some,
    {
        self.current_operation.is_some()
    }

    /// The operation to execute. It exists once
    /// [`Document::retain_operation`] has returned `true`.
    pub fn current_operation(&self) -> (r: &CurrentOperation)
        requires
            self.operation_model() is Some,
        ensures
            r.deep_view() == self.operation_model()->0,
    {
        self.current_operation.as_ref().unwrap()
    }

    /// Resolves the document for a request that asks for the operation
    /// `operation_name`, or for none by name. One pass takes the
    /// definitions in order and leaves none behind: each fragment goes
    /// into a new table under its name, where it replaces an earlier
    /// fragment of that name; and, unless the document has an operation
    /// already, the first operation that serves the request becomes the
    /// operation to execute. Returns whether the document now has one.
    /// A second call finds no definitions: it leaves the operation as it
    /// is and the table empty.
    pub fn retain_operation(&mut self, operation_name: Option<&str>) -> (r: bool)
        ensures
            final(self).source_text() == old(self).source_text(),
            final(self).definition_models().len() == 0,
            final(self).fragment_table() == fragments_of(old(self).definition_models()),
            final(self).fragments_in_order() == fragments_in_order_of(
                old(self).definition_models(),
            ),
            final(self).operation_model() == resolved(
                old(self).operation_model(),
                old(self).definition_models(),
                requested_name(operation_name),
            ),
            r == final(self).operation_model() is Some,
    {
        let ghost requested = requested_name(operation_name);
        let ghost all = self.definitions.deep_view();
        let ghost first = self.current_operation.deep_view();
        let mut fragments = FragmentsMap::new();
        let mut definitions: Vec<Positioned<Definition>> = Vec::new();
        core::mem::swap(&mut self.definitions, &mut definitions);
        let mut current: Option<CurrentOperation> = None;
        core::mem::swap(&mut self.current_operation, &mut current);
        assert(all.take(0) =~= Seq::empty());

        for definition in it: definitions.into_iter()
            invariant
                it.seq().len() == all.len(),
                forall|k: int| 0 <= k < all.len() ==> (#[trigger] it.seq()[k]).deep_view() == all[k],
                requested == requested_name(operation_name),
                fragments@ == fragments_of(all.take(it.index() as int)),
                fragments.entries() == fragments_in_order_of(all.take(it.index() as int)),
                current.deep_view() == resolved(first, all.take(it.index() as int), requested),
        {
            let ghost n = it.index() as int;
            proof {
                assert(all.take(n + 1).drop_last() =~= all.take(n));
                assert(all.take(n + 1).last() == all[n]);
                assert(definition.deep_view() == all[n]);
            }
            match definition.node {
                Definition::Operation(operation_definition) => {
                    if current.is_none() {
                        match operation_definition.node {
                            OperationDefinition::SelectionSet(s) => {
                                current = Some(
                                    CurrentOperation {
                                        ty: OperationType::Query,
                                        variable_definitions: Vec::new(),
                                        selection_set: s,
                                    },
                                );
                                assert(current->0.variable_definitions.deep_view() =~= Seq::empty());
                            },
                            OperationDefinition::Query(query) => {
                                if name_is_served(&query.node.name, operation_name) {
                                    current = Some(
                                        CurrentOperation {
                                            ty: OperationType::Query,
                                            variable_definitions: query.node.variable_definitions,
                                            selection_set: query.node.selection_set,
                                        },
                                    );
                                }
                            },
                            OperationDefinition::Mutation(mutation) => {
                                if name_is_served(&mutation.node.name, operation_name) {
                                    current = Some(
                                        CurrentOperation {
                                            ty: OperationType::Mutation,
                                            variable_definitions: mutation.node.variable_definitions,
                                            selection_set: mutation.node.selection_set,
                                        },
                                    );
                                }
                            },
                            OperationDefinition::Subscription(subscription) => {
                                if name_is_served(&subscription.node.name, operation_name) {
                                    current = Some(
                                        CurrentOperation {
                                            ty: OperationType::Subscription,
                                            variable_definitions: subscription.node.variable_definitions,
                                            selection_set: subscription.node.selection_set,
                                        },
                                    );
                                }
                            },
                        }
                    }
                },
                Definition::Fragment(fragment) => {
                    fragments.insert(fragment);
                },
            }
        }
        proof {
            assert(all.take(all.len() as int) =~= all);
        }
        self.fragments = fragments;
        let r = current.is_some();
        self.current_operation = current;
        assert(self.definitions.deep_view() =~= Seq::empty());
        r
    }
}

} // verus!
