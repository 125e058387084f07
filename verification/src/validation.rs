//! A rule for resolved documents: every fragment that is spread is
//! defined.

use crate::document::Document;
use crate::document::FragmentTable;
use crate::document::FragmentsMap;
use crate::pos::Pos;
use crate::pos::Positioned;
use crate::query::lemma_selection_set_items;
use crate::query::FragmentSpread;
use crate::query::FragmentSpreadModel;
use crate::query::Selection;
use crate::query::SelectionModel;
use crate::query::SelectionSet;
use crate::query::SelectionSetModel;
use vstd::prelude::*;
use vstd::string::StringExecFns;

verus! {

/// What a rule found wrong: where, and what.
#[derive(Debug, Clone, PartialEq, Eq)]
pub struct RuleError {
    pub locations: Vec<Pos>,
    pub message: String,
}

/// What a [`RuleError`] holds.
pub struct RuleErrorModel {
    pub locations: Seq<Pos>,
    pub message: Seq<char>,
}

impl DeepView for RuleError {
    type V = RuleErrorModel;

    open spec fn deep_view(&self) -> RuleErrorModel {
        RuleErrorModel { locations: self.locations.deep_view(), message: self.message@ }
    }
}

/// The error for the spread of a fragment that is not defined: at the
/// spread, naming the fragment.
pub open spec fn unknown_fragment(spread: Positioned<FragmentSpreadModel>) -> RuleErrorModel {
    RuleErrorModel {
        locations: seq![spread.pos],
        message: "Unknown fragment: \""@ + spread.node.fragment_name.node + "\""@,
    }
}

/// The errors for the spreads in `set`, in the order written, of
/// fragments that `table` does not hold.
pub open spec fn unknown_in_set(set: SelectionSetModel, table: FragmentTable) -> Seq<RuleErrorModel>
    decreases set, 0nat,
{
    unknown_in_items(set.items, set.items.len(), table)
}

/// The errors for the spreads in the first `n` of `items`.
pub open spec fn unknown_in_items(
    items: Seq<Positioned<SelectionModel>>,
    n: nat,
    table: FragmentTable,
) -> Seq<RuleErrorModel>
    decreases items, n,
{
    if n == 0 || n > items.len() {
        Seq::empty()
    } else {
        unknown_in_items(items, (n - 1) as nat, table) + unknown_in_selection(
            items[n - 1].node,
            table,
        )
    }
}

/// The errors for the spreads in one selection.
pub open spec fn unknown_in_selection(selection: SelectionModel, table: FragmentTable) -> Seq<
    RuleErrorModel,
>
    decreases selection, 0nat,
{
    match selection {
        SelectionModel::Field(f) => unknown_in_set(f.node.selection_set.node, table),
        SelectionModel::FragmentSpread(spread) => if table.contains_key(
            spread.node.fragment_name.node,
        ) {
            Seq::empty()
        } else {
            seq![unknown_fragment(spread)]
        },
        SelectionModel::InlineFragment(f) => unknown_in_set(f.node.selection_set.node, table),
    }
}

/// What a rule sees of the document that it checks, and the errors
/// reported so far.
pub struct VisitorContext<'a> {
    fragments: &'a FragmentsMap,
    errors: Vec<RuleError>,
}

impl<'a> VisitorContext<'a> {
    /// The fragments of the document.
    pub closed spec fn table(&self) -> FragmentTable {
        self.fragments@
    }

    /// The errors reported so far, oldest first.
    pub closed spec fn reported(&self) -> Seq<RuleErrorModel> {
        self.errors.deep_view()
    }

    /// A context for `document`, with no error reported.
    pub fn new(document: &'a Document) -> (r: Self)
        ensures
            r.table() == document.fragment_table(),
            r.reported() == Seq::<RuleErrorModel>::empty(),
    {
        let r = VisitorContext { fragments: document.fragments(), errors: Vec::new() };
        assert(r.errors.deep_view() =~= Seq::empty());
        r
    }

    /// Whether the document defines a fragment named `name`.
    pub fn is_known_fragment(&self, name: &str) -> (r: bool)
        ensures
            r == self.table().contains_key(name@),
    {
        self.fragments.contains_key(name)
    }

    /// Reports an error.
    pub fn report_error(&mut self, locations: Vec<Pos>, message: String)
        ensures
            final(self).table() == old(self).table(),
            final(self).reported() == old(self).reported().push(
                RuleErrorModel { locations: locations.deep_view(), message: message@ },
            ),
    {
        let ghost before = self.errors.deep_view();
        let error = RuleError { locations, message };
        self.errors.push(error);
        assert(self.errors.deep_view() =~= before.push(error.deep_view()));
    }

    /// The errors reported, oldest first.
    pub fn into_errors(self) -> (r: Vec<RuleError>)
        ensures
            r.deep_view() == self.reported(),
    {
        self.errors
    }
}

/// The rule that every fragment that is spread is defined.
#[derive(Debug, Default)]
pub struct KnownFragmentNames;

impl KnownFragmentNames {
    /// Reports the spread if the document defines no fragment of its
    /// name.
    pub fn enter_fragment_spread(
        &mut self,
        ctx: &mut VisitorContext<'_>,
        fragment_spread: &Positioned<FragmentSpread>,
    )
        ensures
            final(ctx).table() == old(ctx).table(),
            final(ctx).reported() == old(ctx).reported() + unknown_in_selection(
                SelectionModel::FragmentSpread(fragment_spread.deep_view()),
                old(ctx).table(),
            ),
    {
        if !ctx.is_known_fragment(fragment_spread.node.fragment_name.node.as_str()) {
            let mut locations: Vec<Pos> = Vec::new();
            locations.push(fragment_spread.position());
            assert(locations.deep_view() =~= seq![fragment_spread.pos]);
            let message = String::from_str("Unknown fragment: \"").concat(
                fragment_spread.node.fragment_name.node.as_str(),
            ).concat("\"");
            let ghost before = ctx.reported();
            ctx.report_error(locations, message);
            assert(ctx.reported() =~= before + seq![unknown_fragment(fragment_spread.deep_view())]);
        } else {
            assert(ctx.reported() =~= ctx.reported() + Seq::<RuleErrorModel>::empty());
        }
    }

    /// Applies the rule to every spread in `set`, in the order written.
    pub fn visit_selection_set(&mut self, ctx: &mut VisitorContext<'_>, set: &SelectionSet)
        ensures
            final(ctx).table() == old(ctx).table(),
            final(ctx).reported() == old(ctx).reported() + unknown_in_set(
                set.deep_view(),
                old(ctx).table(),
            ),
        decreases set,
    {
        let ghost table = ctx.table();
        let ghost before = ctx.reported();
        let ghost items = set.deep_view().items;
        proof {
            lemma_selection_set_items(*set);
            assert(before =~= before + unknown_in_items(items, 0, table));
        }
        let mut i: usize = 0;
        while i < set.items.len()
            invariant
                i <= set.items@.len(),
                items == set.deep_view().items,
                items == set.items.deep_view(),
                ctx.table() == table,
                ctx.reported() == before + unknown_in_items(items, i as nat, table),
                forall|k: int|
                    0 <= k < set.items@.len() ==> decreases_to!(set => #[trigger] set.items@[k]),
            decreases set.items@.len() - i,
        {
            let ghost so_far = ctx.reported();
            let item = &set.items[i];
            assert(item.deep_view() == items[i as int]);
            let ghost found = unknown_in_selection(items[i as int].node, table);
            match &item.node {
                Selection::Field(field) => {
                    assert(items[i as int].node == SelectionModel::Field(field.deep_view()));
                    assert(field.deep_view().node.selection_set.node
                        == field.node.selection_set.node.deep_view());
                    self.visit_selection_set(ctx, &field.node.selection_set.node);
                },
                Selection::FragmentSpread(spread) => {
                    assert(items[i as int].node == SelectionModel::FragmentSpread(
                        spread.deep_view(),
                    ));
                    self.enter_fragment_spread(ctx, spread);
                },
                Selection::InlineFragment(fragment) => {
                    assert(items[i as int].node == SelectionModel::InlineFragment(
                        fragment.deep_view(),
                    ));
                    assert(fragment.deep_view().node.selection_set.node
                        == fragment.node.selection_set.node.deep_view());
                    self.visit_selection_set(ctx, &fragment.node.selection_set.node);
                },
            }
            assert(ctx.reported() == so_far + found);
            i += 1;
            assert(unknown_in_items(items, i as nat, table) == unknown_in_items(
                items,
                (i - 1) as nat,
                table,
            ) + found);
            assert(ctx.reported() =~= before + unknown_in_items(items, i as nat, table));
        }
    }
}

/// The errors of a resolved document under the rule that every fragment
/// that is spread is defined: first those of the operation to execute,
/// then those of each fragment in the order of the table.
pub open spec fn unknown_fragments(document: &Document) -> Seq<RuleErrorModel> {
    let table = document.fragment_table();
    let first = match document.operation_model() {
        Some(operation) => unknown_in_set(operation.selection_set.node, table),
        None => Seq::empty(),
    };
    first + unknown_in_fragments(document.fragments_in_order(), document.fragments_in_order().len(), table)
}

/// The errors for the spreads in the first `n` of the fragments
/// `entries`.
pub open spec fn unknown_in_fragments(
    entries: Seq<Positioned<crate::query::FragmentDefinitionModel>>,
    n: nat,
    table: FragmentTable,
) -> Seq<RuleErrorModel>
    decreases n,
{
    if n == 0 || n > entries.len() {
        Seq::empty()
    } else {
        unknown_in_fragments(entries, (n - 1) as nat, table) + unknown_in_set(
            entries[n - 1].node.selection_set.node,
            table,
        )
    }
}

/// Checks a resolved document against the rule that every fragment that
/// is spread is defined.
pub fn check_known_fragment_names(document: &Document) -> (r: Vec<RuleError>)
    ensures
        r.deep_view() == unknown_fragments(document),
{
    let mut rule = KnownFragmentNames;
    let mut ctx = VisitorContext::new(document);
    let ghost table = document.fragment_table();
    if document.has_operation() {
        rule.visit_selection_set(&mut ctx, &document.current_operation().selection_set.node);
    } else {
        assert(ctx.reported() =~= ctx.reported() + Seq::<RuleErrorModel>::empty());
    }
    let ghost first = ctx.reported();
    let fragments = document.fragments();
    let ghost entries = fragments.entries();
    proof {
        assert(first =~= first + unknown_in_fragments(entries, 0, table));
    }
    let mut i: usize = 0;
    while i < fragments.len()
        invariant
            i <= fragments.entries().len(),
            entries == fragments.entries(),
            entries == document.fragments_in_order(),
            ctx.table() == table,
            table == document.fragment_table(),
            ctx.reported() == first + unknown_in_fragments(entries, i as nat, table),
        decreases fragments.entries().len() - i,
    {
        rule.visit_selection_set(&mut ctx, &fragments.entry(i).node.selection_set.node);
        i += 1;
        assert(ctx.reported() =~= first + unknown_in_fragments(entries, i as nat, table));
    }
    ctx.into_errors()
}

} // verus!
