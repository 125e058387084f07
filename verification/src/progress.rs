//! Every production that the grammar repeats takes at least one byte, and
//! none ends outside the text. So a repetition never stands still: where
//! the grammar asks whether a production has moved, it has.

use crate::grammar::AT;
use crate::grammar::BRACE_CLOSE;
use crate::grammar::BRACE_OPEN;
use crate::grammar::BRACKET_CLOSE;
use crate::grammar::BRACKET_OPEN;
use crate::grammar::COLON;
use crate::grammar::DOLLAR;
use crate::grammar::EQUALS;
use crate::grammar::MINUS;
use crate::grammar::PAREN_CLOSE;
use crate::grammar::PAREN_OPEN;
use crate::grammar::QUOTE;
use crate::grammar::byte_at;
use crate::grammar::digit_at;
use crate::grammar::lemma_digits_end_bounds;
use crate::grammar::lemma_name_end_bounds;
use crate::grammar::lemma_skip_bounds;
use crate::grammar::lemma_string_end_bounds;
use crate::grammar::name_at;
use crate::grammar::name_end;
use crate::grammar::remaining;
use crate::grammar::skip;
use crate::pos::Positioned;
use crate::query::ArgumentModels;
use crate::query::DefinitionModel;
use crate::query::DirectiveModel;
use crate::query::SelectionModel;
use crate::query::VariableDefinitionModel;
use crate::syntax::Parsed;
use crate::syntax::alias;
use crate::syntax::argument_list;
use crate::syntax::arguments;
use crate::syntax::array_items;
use crate::syntax::definition;
use crate::syntax::definitions;
use crate::syntax::directive;
use crate::syntax::directives;
use crate::syntax::document;
use crate::syntax::dots_at;
use crate::syntax::field;
use crate::syntax::fragment_spread;
use crate::syntax::inline_fragment;
use crate::syntax::lone_value;
use crate::syntax::moved;
use crate::syntax::name;
use crate::syntax::number_value;
use crate::syntax::object_fields;
use crate::syntax::object_pair;
use crate::syntax::optional_name;
use crate::syntax::optional_type_condition;
use crate::syntax::pair;
use crate::syntax::selection;
use crate::syntax::selection_set;
use crate::syntax::selections;
use crate::syntax::string_value;
use crate::syntax::type_condition;
use crate::syntax::type_reference;
use crate::syntax::value;
use crate::syntax::variable;
use crate::syntax::variable_definition;
use crate::syntax::variable_definition_list;
use crate::syntax::variable_definitions;
use crate::syntax::word_at;
use crate::value::ValueModel;
use crate::value::lemma_with_field_well_formed;
use crate::value::well_formed;
use crate::value::with_field;
use crate::syntax::default_value;
use crate::syntax::named_operation_definition;
use crate::syntax::fragment_definition;
use vstd::prelude::*;

verus! {

broadcast use {lemma_skip_bounds, lemma_name_end_bounds, lemma_digits_end_bounds};

/// Whether a production that began at `p` took at least one byte and
/// ended inside the text, or else failed inside the text at or behind
/// `p`.
pub open spec fn advances<T>(s: Seq<u8>, p: int, m: Parsed<T>) -> bool {
    match m {
        Ok((_, end)) => moved(s, p, end) && end <= s.len(),
        Err(failure) => p <= failure.at <= s.len(),
    }
}

/// Whether a production that began at `p` ended at or behind `p` and
/// inside the text, or else failed inside the text at or behind `p`.
pub open spec fn stays_inside<T>(s: Seq<u8>, p: int, m: Parsed<T>) -> bool {
    match m {
        Ok((_, end)) => p <= end <= s.len(),
        Err(failure) => p <= failure.at <= s.len(),
    }
}

/// A number takes at least one byte.
pub proof fn lemma_number_advances(s: Seq<u8>, p: int)
    requires
        0 <= p <= s.len(),
    ensures
        advances(s, p, number_value(s, p)),
{
    reveal(number_value);
}

/// A string literal takes at least its two quotes.
pub proof fn lemma_string_advances(s: Seq<u8>, p: int)
    requires
        byte_at(s, p, QUOTE),
    ensures
        advances(s, p, string_value(s, p)),
{
    reveal(string_value);
    lemma_string_end_bounds(s, p + 1);
}

/// A value takes at least one byte.
pub proof fn lemma_value_advances(s: Seq<u8>, p: int)
    requires
        0 <= p <= s.len(),
    ensures
        advances(s, p, value(s, p)),
    decreases remaining(s, p), 0nat,
{
    reveal(value);
    reveal(variable);
    reveal(number_value);
    reveal(string_value);
    reveal(array_items);
    reveal(object_fields);
    if byte_at(s, p, DOLLAR) {
    } else if byte_at(s, p, BRACKET_OPEN) {
        lemma_array_items_advance(s, skip(s, p + 1), Seq::empty());
    } else if byte_at(s, p, BRACE_OPEN) {
        lemma_object_fields_advance(s, skip(s, p + 1), Seq::empty());
    } else if byte_at(s, p, QUOTE) {
        lemma_string_advances(s, p);
    } else if byte_at(s, p, MINUS) || digit_at(s, p) {
        lemma_number_advances(s, p);
    }
}

/// The rest of a list ends behind its closing bracket.
pub proof fn lemma_array_items_advance(s: Seq<u8>, p: int, acc: Seq<ValueModel>)
    requires
        0 <= p <= s.len(),
    ensures
        advances(s, p, array_items(s, p, acc)),
    decreases remaining(s, p), 1nat,
{
    reveal(value);
    reveal(array_items);
    reveal(variable);
    reveal(number_value);
    reveal(string_value);
    reveal(object_fields);
    if !byte_at(s, p, BRACKET_CLOSE) {
        lemma_value_advances(s, p);
        if let Ok((item, end)) = value(s, p) {
            lemma_array_items_advance(s, end, acc.push(item));
        }
    }
}

/// A field of an object takes at least one byte.
pub proof fn lemma_object_pair_advances(s: Seq<u8>, p: int)
    requires
        0 <= p <= s.len(),
    ensures
        advances(s, p, object_pair(s, p)),
    decreases remaining(s, p), 1nat,
{
    reveal(object_pair);
    reveal(value);
    if name_at(s, p) {
        let colon = skip(s, name_end(s, p + 1));
        if byte_at(s, colon, COLON) {
            lemma_value_advances(s, skip(s, colon + 1));
        }
    }
}

/// The rest of an object ends behind its closing brace.
pub proof fn lemma_object_fields_advance(s: Seq<u8>, p: int, acc: Seq<(Seq<char>, ValueModel)>)
    requires
        0 <= p <= s.len(),
    ensures
        advances(s, p, object_fields(s, p, acc)),
    decreases remaining(s, p), 2nat,
{
    reveal(object_pair);
    reveal(object_fields);
    reveal(value);
    if !byte_at(s, p, BRACE_CLOSE) {
        lemma_object_pair_advances(s, p);
        if let Ok((f, end)) = object_pair(s, p) {
            lemma_object_fields_advance(s, end, with_field(acc, f.0, f.1));
        }
    }
}

/// An argument takes at least one byte.
pub proof fn lemma_pair_advances(s: Seq<u8>, p: int)
    requires
        0 <= p <= s.len(),
    ensures
        advances(s, p, pair(s, p)),
{
    reveal(pair);
    reveal(value);
    if name_at(s, p) {
        let colon = skip(s, name_end(s, p + 1));
        if byte_at(s, colon, COLON) {
            lemma_value_advances(s, skip(s, colon + 1));
        }
    }
}

/// The rest of the arguments ends behind the closing parenthesis.
pub proof fn lemma_argument_list_advances(s: Seq<u8>, p: int, acc: ArgumentModels)
    requires
        0 <= p <= s.len(),
    ensures
        advances(s, p, argument_list(s, p, acc)),
    decreases remaining(s, p),
{
    reveal(pair);
    reveal(argument_list);
    reveal(value);
    if !byte_at(s, p, PAREN_CLOSE) {
        lemma_pair_advances(s, p);
        if let Ok((a, end)) = pair(s, p) {
            lemma_argument_list_advances(s, end, acc.push(a));
        }
    }
}

/// Arguments end inside the text.
pub proof fn lemma_arguments_stay_inside(s: Seq<u8>, p: int)
    requires
        0 <= p <= s.len(),
    ensures
        stays_inside(s, p, arguments(s, p)),
{
    reveal(arguments);
    reveal(argument_list);
    if byte_at(s, p, PAREN_OPEN) {
        lemma_argument_list_advances(s, skip(s, p + 1), Seq::empty());
    }
}

/// A directive takes at least one byte.
pub proof fn lemma_directive_advances(s: Seq<u8>, p: int)
    requires
        0 <= p <= s.len(),
    ensures
        advances(s, p, directive(s, p)),
{
    reveal(directive);
    reveal(arguments);
    if byte_at(s, p, AT) {
        let q = skip(s, p + 1);
        if name_at(s, q) {
            lemma_arguments_stay_inside(
                s,
                skip(s, name_end(s, q + 1)),
            );
        }
    }
}

/// Directives end inside the text.
pub proof fn lemma_directives_stay_inside(
    s: Seq<u8>,
    p: int,
    acc: Seq<Positioned<DirectiveModel>>,
)
    requires
        0 <= p <= s.len(),
    ensures
        stays_inside(s, p, directives(s, p, acc)),
    decreases remaining(s, p),
{
    reveal(directive);
    reveal(directives);
    reveal(arguments);
    if byte_at(s, p, AT) {
        lemma_directive_advances(s, p);
        if let Ok((d, end)) = directive(s, p) {
            lemma_directives_stay_inside(s, end, acc.push(d));
        }
    }
}

/// A type reference takes at least one byte.
pub proof fn lemma_type_reference_advances(s: Seq<u8>, p: int)
    requires
        0 <= p <= s.len(),
    ensures
        advances(s, p, type_reference(s, p)),
    decreases remaining(s, p),
{
    reveal(type_reference);
    if byte_at(s, p, BRACKET_OPEN) {
        lemma_type_reference_advances(s, skip(s, p + 1));
    }
}

/// The definition of a variable takes at least one byte.
pub proof fn lemma_variable_definition_advances(s: Seq<u8>, p: int)
    requires
        0 <= p <= s.len(),
    ensures
        advances(s, p, variable_definition(s, p)),
{
    reveal(variable);
    reveal(type_reference);
    reveal(variable_definition);
    reveal(default_value);
    if let Ok((_, colon)) = variable(s, p) {
        if byte_at(s, colon, COLON) {
            let t = skip(s, colon + 1);
            lemma_type_reference_advances(s, t);
            if let Ok((_, after)) = type_reference(s, t) {
                if byte_at(s, after, EQUALS) {
                    lemma_value_advances(s, skip(s, after + 1));
                }
            }
        }
    }
}

/// The rest of the definitions of variables ends behind the closing
/// parenthesis.
pub proof fn lemma_variable_definition_list_advances(
    s: Seq<u8>,
    p: int,
    acc: Seq<Positioned<VariableDefinitionModel>>,
)
    requires
        0 <= p <= s.len(),
    ensures
        advances(s, p, variable_definition_list(s, p, acc)),
    decreases remaining(s, p),
{
    reveal(variable_definition);
    reveal(variable_definition_list);
    reveal(variable);
    reveal(type_reference);
    reveal(default_value);
    if !byte_at(s, p, PAREN_CLOSE) {
        lemma_variable_definition_advances(s, p);
        if let Ok((d, end)) = variable_definition(s, p) {
            lemma_variable_definition_list_advances(s, end, acc.push(d));
        }
    }
}

/// Definitions of variables end inside the text.
pub proof fn lemma_variable_definitions_stay_inside(s: Seq<u8>, p: int)
    requires
        0 <= p <= s.len(),
    ensures
        stays_inside(s, p, variable_definitions(s, p)),
{
    reveal(variable_definitions);
    reveal(variable_definition_list);
    if byte_at(s, p, PAREN_OPEN) {
        lemma_variable_definition_list_advances(s, skip(s, p + 1), Seq::empty());
    }
}

/// A type condition takes at least one byte.
pub proof fn lemma_type_condition_advances(s: Seq<u8>, p: int)
    requires
        0 <= p <= s.len(),
    ensures
        advances(s, p, type_condition(s, p)),
{
    reveal(type_condition);
    reveal(name);
}

/// The spread of a named fragment takes at least its dots.
pub proof fn lemma_fragment_spread_advances(s: Seq<u8>, p: int)
    requires
        0 <= p <= s.len(),
    ensures
        advances(s, p, fragment_spread(s, p)),
{
    reveal(name);
    reveal(fragment_spread);
    reveal(directives);
    if dots_at(s, p) {
        if let Ok((_, after)) = name(s, skip(s, p + 3)) {
            lemma_directives_stay_inside(s, after, Seq::empty());
        }
    }
}

/// A selection set takes at least its braces.
pub proof fn lemma_selection_set_advances(s: Seq<u8>, p: int)
    requires
        0 <= p <= s.len(),
    ensures
        advances(s, p, selection_set(s, p)),
    decreases remaining(s, p), 3nat,
{
    reveal(selection_set);
    reveal(selections);
    if byte_at(s, p, BRACE_OPEN) {
        lemma_selections_advance(s, skip(s, p + 1), Seq::empty());
    }
}

/// The rest of a selection set ends behind its closing brace.
pub proof fn lemma_selections_advance(s: Seq<u8>, p: int, acc: Seq<Positioned<SelectionModel>>)
    requires
        0 <= p <= s.len(),
    ensures
        advances(s, p, selections(s, p, acc)),
    decreases remaining(s, p), 2nat,
{
    reveal(selections);
    reveal(selection);
    reveal(fragment_spread);
    reveal(field);
    reveal(inline_fragment);
    if !byte_at(s, p, BRACE_CLOSE) {
        lemma_selection_advances(s, p);
        if let Ok((item, end)) = selection(s, p) {
            lemma_selections_advance(s, end, acc.push(item));
        }
    }
}

/// A selection takes at least one byte.
pub proof fn lemma_selection_advances(s: Seq<u8>, p: int)
    requires
        0 <= p <= s.len(),
    ensures
        advances(s, p, selection(s, p)),
    decreases remaining(s, p), 1nat,
{
    reveal(selection);
    reveal(fragment_spread);
    reveal(field);
    reveal(inline_fragment);
    if dots_at(s, p) {
        lemma_fragment_spread_advances(s, p);
        lemma_inline_fragment_advances(s, p);
    } else if name_at(s, p) {
        lemma_field_advances(s, p);
    }
}

/// A field takes at least one byte, and its selection set, where it has
/// one, begins behind its name.
pub proof fn lemma_field_advances(s: Seq<u8>, p: int)
    requires
        0 <= p <= s.len(),
    ensures
        advances(s, p, field(s, p)),
        name_at(s, p) ==> (name(s, alias(s, p).1) matches Ok((_, after))
            ==> (arguments(s, after) matches Ok((_, e1)) ==> (directives(s, e1, Seq::empty()) matches Ok(
            (_, e2),
        ) ==> moved(s, p, e2)))),
    decreases remaining(s, p), 0nat,
{
    reveal(arguments);
    reveal(directives);
    reveal(name);
    reveal(field);
    reveal(argument_list);
    reveal(directive);
    reveal(selection_set);
    if name_at(s, p) {
        if let Ok((_, after)) = name(s, alias(s, p).1) {
            lemma_arguments_stay_inside(s, after);
            if let Ok((_, e1)) = arguments(s, after) {
                lemma_directives_stay_inside(s, e1, Seq::empty());
                if let Ok((_, e2)) = directives(s, e1, Seq::empty()) {
                    if byte_at(s, e2, BRACE_OPEN) {
                        lemma_selection_set_advances(s, e2);
                    }
                }
            }
        }
    }
}

/// An inline fragment takes at least its dots, behind which its
/// selection set begins.
pub proof fn lemma_inline_fragment_advances(s: Seq<u8>, p: int)
    requires
        0 <= p <= s.len(),
    ensures
        advances(s, p, inline_fragment(s, p)),
        dots_at(s, p) ==> (optional_type_condition(s, skip(s, p + 3)) matches Ok(
            (_, e1),
        ) ==> (directives(s, e1, Seq::empty()) matches Ok((_, e2)) ==> moved(s, p, e2))),
    decreases remaining(s, p), 0nat,
{
    reveal(directives);
    reveal(inline_fragment);
    reveal(type_condition);
    reveal(directive);
    reveal(selection_set);
    reveal(name);
    if dots_at(s, p) {
        let q = skip(s, p + 3);
        lemma_type_condition_advances(s, q);
        if let Ok((_, e1)) = optional_type_condition(s, q) {
            lemma_directives_stay_inside(s, e1, Seq::empty());
            if let Ok((_, e2)) = directives(s, e1, Seq::empty()) {
                lemma_selection_set_advances(s, e2);
            }
        }
    }
}

/// A definition takes at least one byte.
pub proof fn lemma_definition_advances(s: Seq<u8>, p: int)
    requires
        0 <= p <= s.len(),
    ensures
        advances(s, p, definition(s, p)),
{
    reveal(directives);
    reveal(variable_definitions);
    reveal(name);
    reveal(type_condition);
    reveal(definition);
    reveal(directive);
    reveal(variable_definition_list);
    reveal(selection_set);
    reveal(named_operation_definition);
    reveal(fragment_definition);
    lemma_selection_set_advances(s, p);
    if word_at(s, p, "fragment"@) {
        if let Ok((_, e0)) = name(s, skip(s, name_end(s, p + 1))) {
            lemma_type_condition_advances(s, e0);
            if let Ok((_, e1)) = type_condition(s, e0) {
                lemma_directives_stay_inside(s, e1, Seq::empty());
                if let Ok((_, e2)) = directives(s, e1, Seq::empty()) {
                    lemma_selection_set_advances(s, e2);
                }
            }
        }
    } else if name_at(s, p) {
        let named = optional_name(
            s,
            skip(s, name_end(s, p + 1)),
        );
        lemma_variable_definitions_stay_inside(s, named.1);
        if let Ok((_, e1)) = variable_definitions(s, named.1) {
            lemma_directives_stay_inside(s, e1, Seq::empty());
            if let Ok((_, e2)) = directives(s, e1, Seq::empty()) {
                lemma_selection_set_advances(s, e2);
            }
        }
    }
}

/// The rest of a document adds to the definitions found so far, at least
/// one unless the text is at its end; a failure lies inside the text.
pub proof fn lemma_definitions_grow(s: Seq<u8>, p: int, acc: Seq<Positioned<DefinitionModel>>)
    requires
        0 <= p <= s.len(),
    ensures
        match definitions(s, p, acc) {
            Ok((found, _)) => found.len() >= acc.len() && (p < s.len() ==> found.len()
                > acc.len()),
            Err(failure) => p <= failure.at <= s.len(),
        },
    decreases remaining(s, p),
{
    reveal(definition);
    reveal(definitions);
    reveal(selection_set);
    reveal(named_operation_definition);
    reveal(fragment_definition);
    if p < s.len() {
        lemma_definition_advances(s, p);
        if let Ok((d, end)) = definition(s, p) {
            lemma_definitions_grow(s, end, acc.push(d));
        }
    }
}

/// A document holds at least one definition, and a text that is no
/// document fails at an offset inside it.
pub proof fn lemma_document_is_not_empty(s: Seq<u8>)
    ensures
        match document(s) {
            Ok(found) => found.len() > 0,
            Err(failure) => 0 <= failure.at <= s.len(),
        },
{
    reveal(document);
    reveal(definitions);
    if skip(s, 0) < s.len() {
        lemma_definitions_grow(s, skip(s, 0), Seq::empty());
    }
}

/// A text that writes no value fails at an offset inside it.
pub proof fn lemma_lone_value_fails_inside(s: Seq<u8>)
    ensures
        lone_value(s) matches Err(failure) ==> 0 <= failure.at <= s.len(),
{
    reveal(lone_value);
    reveal(value);
    lemma_value_advances(s, skip(s, 0));
}

/// A selection set that the grammar yields holds at least one selection.
pub proof fn lemma_selections_are_not_empty(
    s: Seq<u8>,
    p: int,
    acc: Seq<Positioned<SelectionModel>>,
)
    ensures
        selections(s, p, acc) matches Ok((items, _)) ==> items.len() > 0 && items.len()
            >= acc.len(),
    decreases remaining(s, p),
{
    reveal(selections);
    reveal(selection);
    reveal(fragment_spread);
    reveal(field);
    reveal(inline_fragment);
    if !byte_at(s, p, BRACE_CLOSE) {
        if let Ok((item, end)) = selection(s, p) {
            if moved(s, p, end) {
                lemma_selections_are_not_empty(s, end, acc.push(item));
            }
        }
    }
}

/// Every object in a value that the grammar yields has fields of
/// distinct names.
pub proof fn lemma_value_is_well_formed(s: Seq<u8>, p: int)
    ensures
        value(s, p) matches Ok((v, _)) ==> well_formed(v),
    decreases remaining(s, p), 0nat,
{
    reveal(value);
    reveal(variable);
    reveal(number_value);
    reveal(string_value);
    reveal(array_items);
    reveal(object_fields);
    if byte_at(s, p, DOLLAR) {
    } else if byte_at(s, p, BRACKET_OPEN) {
        lemma_array_is_well_formed(s, skip(s, p + 1), Seq::empty());
    } else if byte_at(s, p, BRACE_OPEN) {
        lemma_object_is_well_formed(s, skip(s, p + 1), Seq::empty());
    } else if byte_at(s, p, QUOTE) {
    } else if byte_at(s, p, MINUS) || digit_at(s, p) {
    }
}

/// A list of well-formed items goes on with well-formed items.
pub proof fn lemma_array_is_well_formed(s: Seq<u8>, p: int, acc: Seq<ValueModel>)
    requires
        well_formed(ValueModel::List(acc)),
    ensures
        array_items(s, p, acc) matches Ok((v, _)) ==> well_formed(v),
    decreases remaining(s, p), 1nat,
{
    reveal(value);
    reveal(array_items);
    reveal(variable);
    reveal(number_value);
    reveal(string_value);
    reveal(object_fields);
    if !byte_at(s, p, BRACKET_CLOSE) {
        lemma_value_is_well_formed(s, p);
        if let Ok((item, end)) = value(s, p) {
            if moved(s, p, end) {
                let before = ValueModel::List(acc);
                assert(before->List_0 == acc);
                assert(well_formed(before));
                assert(forall|i: int| 0 <= i < acc.len() ==> well_formed(#[trigger] acc[i]));
                assert forall|i: int| 0 <= i < acc.push(item).len() implies well_formed(
                    #[trigger] acc.push(item)[i],
                ) by {
                    if i < acc.len() {
                        assert(acc.push(item)[i] == acc[i]);
                    }
                }
                lemma_array_is_well_formed(s, end, acc.push(item));
            }
        }
    }
}

/// An object of well-formed fields goes on with well-formed fields.
pub proof fn lemma_object_is_well_formed(s: Seq<u8>, p: int, acc: Seq<(Seq<char>, ValueModel)>)
    requires
        well_formed(ValueModel::Object(acc)),
    ensures
        object_fields(s, p, acc) matches Ok((v, _)) ==> well_formed(v),
    decreases remaining(s, p), 2nat,
{
    reveal(object_pair);
    reveal(object_fields);
    reveal(value);
    if !byte_at(s, p, BRACE_CLOSE) {
        if let Ok((f, end)) = object_pair(s, p) {
            if moved(s, p, end) {
                let colon = skip(s, name_end(s, p + 1));
                lemma_value_is_well_formed(s, skip(s, colon + 1));
                lemma_with_field_well_formed(acc, f.0, f.1);
                lemma_object_is_well_formed(s, end, with_field(acc, f.0, f.1));
            }
        }
    }
}

} // verus!

