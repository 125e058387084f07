//! The grammar of request documents.
//!
//! Each production is a function on the bytes of the source that says what
//! the production yields at an offset: the part of the syntax tree that it
//! stands for and the offset at which the next token begins, or the first
//! failure. A production begins at the first byte of its first token.

use crate::escape::unquoted;
use crate::grammar::AT;
use crate::grammar::BANG;
use crate::grammar::BRACE_CLOSE;
use crate::grammar::BRACE_OPEN;
use crate::grammar::BRACKET_CLOSE;
use crate::grammar::BRACKET_OPEN;
use crate::grammar::COLON;
use crate::grammar::DOLLAR;
use crate::grammar::DOT;
use crate::grammar::EQUALS;
use crate::grammar::MINUS;
use crate::grammar::PAREN_CLOSE;
use crate::grammar::PAREN_OPEN;
use crate::grammar::QUOTE;
use crate::grammar::byte_at;
use crate::grammar::digit_at;
use crate::grammar::integer_value;
use crate::grammar::lemma_digits_end_bounds;
use crate::grammar::lemma_name_end_bounds;
use crate::grammar::lemma_skip_bounds;
use crate::grammar::name_at;
use crate::grammar::name_end;
use crate::grammar::name_text;
use crate::grammar::number_at;
use crate::grammar::remaining;
use crate::grammar::skip;
use crate::grammar::string_end;
use crate::pos::Pos;
use crate::pos::Positioned;
use crate::position::pos_at;
use crate::query::ArgumentModels;
use crate::query::DefinitionModel;
use crate::query::DirectiveModel;
use crate::query::Field;
use crate::query::FieldModel;
use crate::query::FragmentDefinitionModel;
use crate::query::FragmentSpread;
use crate::query::FragmentSpreadModel;
use crate::query::InlineFragment;
use crate::query::InlineFragmentModel;
use crate::query::Mutation;
use crate::query::OperationDefinitionModel;
use crate::query::OperationModel;
use crate::query::OperationType;
use crate::query::Query;
use crate::query::SelectionModel;
use crate::query::SelectionSet;
use crate::query::SelectionSetModel;
use crate::query::Subscription;
use crate::query::TypeConditionModel;
use crate::query::TypeModel;
use crate::query::VariableDefinitionModel;
use crate::text::ascii_text;
use crate::value::ValueModel;
use crate::value::with_field;
use vstd::prelude::*;
use vstd::utf8::decode_utf8;

verus! {

broadcast use {lemma_skip_bounds, lemma_name_end_bounds, lemma_digits_end_bounds};

/// Why a text is no document: the offset at which it goes wrong, and the
/// message that says how.
pub struct Failure {
    pub at: int,
    pub message: Seq<char>,
}

/// What a production yields: what it stands for and the offset of the
/// token behind it, or the failure.
pub type Parsed<T> = Result<(T, int), Failure>;

/// The failure at offset `at` with the given message.
pub open spec fn fail<T>(at: int, message: Seq<char>) -> Parsed<T> {
    Err(Failure { at, message })
}

/// Whether a production that began at `from`, inside the text, has taken
/// at least one byte when it ends at `to`. The grammar asks this before
/// it repeats a production, so that no repetition can stand still; every
/// production that it repeats has in fact moved, as `progress` shows.
pub open spec fn moved(s: Seq<u8>, from: int, to: int) -> bool {
    0 <= from < s.len() && from < to
}

/// The value that a bare word stands for: a boolean, null, or else the
/// name of an enum value.
pub open spec fn word_value(word: Seq<char>) -> ValueModel {
    if word == "true"@ {
        ValueModel::Boolean(true)
    } else if word == "false"@ {
        ValueModel::Boolean(false)
    } else if word == "null"@ {
        ValueModel::Null
    } else {
        ValueModel::Enum(word)
    }
}

/// The variable at offset `p`: `$` and a name. The position is that of
/// the name.
#[verifier::opaque]
pub open spec fn variable(s: Seq<u8>, p: int) -> Parsed<Positioned<Seq<char>>> {
    if !byte_at(s, p, DOLLAR) {
        fail(p, "expected '$'"@)
    } else {
        let q = skip(s, p + 1);
        if name_at(s, q) {
            Ok((Positioned { pos: pos_at(s, q), node: name_text(s, q) }, skip(s, name_end(s, q + 1))))
        } else {
            fail(q, "expected a name"@)
        }
    }
}

/// The number at offset `p`. An integer must fit 64 bits with a sign; a
/// floating-point number is kept as it is written.
#[verifier::opaque]
pub open spec fn number_value(s: Seq<u8>, p: int) -> Parsed<ValueModel> {
    match number_at(s, p) {
        Err(gap) => fail(gap, "expected a digit"@),
        Ok(number) => if number.float {
            Ok((ValueModel::Float(ascii_text(s, p, number.end)), skip(s, number.end)))
        } else {
            let n = integer_value(s, p, number.end);
            if i64::MIN <= n <= i64::MAX {
                Ok((ValueModel::Int(n as i64), skip(s, number.end)))
            } else {
                fail(p, "integer out of range"@)
            }
        },
    }
}

/// The string literal at offset `p`, which holds its opening quote. A
/// malformed escape fails at the opening quote.
#[verifier::opaque]
pub open spec fn string_value(s: Seq<u8>, p: int) -> Parsed<ValueModel> {
    match string_end(s, p + 1) {
        Err(gap) => fail(gap, "unterminated string"@),
        Ok(end) => match unquoted(decode_utf8(s.subrange(p, end))) {
            Ok(text) => Ok((ValueModel::String(text), skip(s, end))),
            Err(message) => fail(p, message),
        },
    }
}

/// The value at offset `p`: a variable, a list, an object, a string, a
/// number, or a bare word.
#[verifier::opaque]
pub open spec fn value(s: Seq<u8>, p: int) -> Parsed<ValueModel>
    decreases remaining(s, p), 0nat,
{
    if byte_at(s, p, DOLLAR) {
        match variable(s, p) {
            Ok((name, end)) => Ok((ValueModel::Variable(name.node), end)),
            Err(failure) => Err(failure),
        }
    } else if byte_at(s, p, BRACKET_OPEN) {
        array_items(s, skip(s, p + 1), Seq::empty())
    } else if byte_at(s, p, BRACE_OPEN) {
        object_fields(s, skip(s, p + 1), Seq::empty())
    } else if byte_at(s, p, QUOTE) {
        string_value(s, p)
    } else if byte_at(s, p, MINUS) || digit_at(s, p) {
        number_value(s, p)
    } else if name_at(s, p) {
        Ok((word_value(name_text(s, p)), skip(s, name_end(s, p + 1))))
    } else {
        fail(p, "expected a value"@)
    }
}

/// The list whose items from offset `p` on follow the items `acc`: values
/// up to the closing bracket.
#[verifier::opaque]
pub open spec fn array_items(s: Seq<u8>, p: int, acc: Seq<ValueModel>) -> Parsed<ValueModel>
    decreases remaining(s, p), 1nat,
{
    if byte_at(s, p, BRACKET_CLOSE) {
        Ok((ValueModel::List(acc), skip(s, p + 1)))
    } else {
        match value(s, p) {
            Ok((item, end)) => if moved(s, p, end) {
                array_items(s, end, acc.push(item))
            } else {
                fail(p, "expected a value"@)
            },
            Err(failure) => Err(failure),
        }
    }
}

/// The field of an object at offset `p`: a name, a colon and a value.
#[verifier::opaque]
pub open spec fn object_pair(s: Seq<u8>, p: int) -> Parsed<(Seq<char>, ValueModel)>
    decreases remaining(s, p), 1nat,
{
    if !name_at(s, p) {
        fail(p, "expected a name"@)
    } else {
        let colon = skip(s, name_end(s, p + 1));
        if !byte_at(s, colon, COLON) {
            fail(colon, "expected ':'"@)
        } else {
            match value(s, skip(s, colon + 1)) {
                Ok((v, end)) => Ok(((name_text(s, p), v), end)),
                Err(failure) => Err(failure),
            }
        }
    }
}

/// The object whose fields from offset `p` on follow the fields `acc`:
/// fields up to the closing brace. A later field of a name takes the
/// place of an earlier one.
#[verifier::opaque]
pub open spec fn object_fields(
    s: Seq<u8>,
    p: int,
    acc: Seq<(Seq<char>, ValueModel)>,
) -> Parsed<ValueModel>
    decreases remaining(s, p), 2nat,
{
    if byte_at(s, p, BRACE_CLOSE) {
        Ok((ValueModel::Object(acc), skip(s, p + 1)))
    } else {
        match object_pair(s, p) {
            Ok((field, end)) => if moved(s, p, end) {
                object_fields(s, end, with_field(acc, field.0, field.1))
            } else {
                fail(p, "expected a name"@)
            },
            Err(failure) => Err(failure),
        }
    }
}

/// The argument at offset `p`: a name, a colon and a value, each with
/// its position.
#[verifier::opaque]
pub open spec fn pair(s: Seq<u8>, p: int) -> Parsed<(Positioned<Seq<char>>, Positioned<ValueModel>)> {
    if !name_at(s, p) {
        fail(p, "expected a name"@)
    } else {
        let colon = skip(s, name_end(s, p + 1));
        if !byte_at(s, colon, COLON) {
            fail(colon, "expected ':'"@)
        } else {
            let v = skip(s, colon + 1);
            match value(s, v) {
                Ok((x, end)) => Ok(
                    (
                        (
                            Positioned { pos: pos_at(s, p), node: name_text(s, p) },
                            Positioned { pos: pos_at(s, v), node: x },
                        ),
                        end,
                    ),
                ),
                Err(failure) => Err(failure),
            }
        }
    }
}

/// The arguments from offset `p` on, behind the arguments `acc`: up to
/// the closing parenthesis.
#[verifier::opaque]
pub open spec fn argument_list(s: Seq<u8>, p: int, acc: ArgumentModels) -> Parsed<ArgumentModels>
    decreases remaining(s, p),
{
    if byte_at(s, p, PAREN_CLOSE) {
        Ok((acc, skip(s, p + 1)))
    } else {
        match pair(s, p) {
            Ok((argument, end)) => if moved(s, p, end) {
                argument_list(s, end, acc.push(argument))
            } else {
                fail(p, "expected a name"@)
            },
            Err(failure) => Err(failure),
        }
    }
}

/// The arguments at offset `p`: pairs between parentheses, or none where
/// no parenthesis opens.
#[verifier::opaque]
pub open spec fn arguments(s: Seq<u8>, p: int) -> Parsed<ArgumentModels> {
    if byte_at(s, p, PAREN_OPEN) {
        argument_list(s, skip(s, p + 1), Seq::empty())
    } else {
        Ok((Seq::empty(), p))
    }
}

/// The directive at offset `p`: `@`, a name and arguments.
#[verifier::opaque]
pub open spec fn directive(s: Seq<u8>, p: int) -> Parsed<Positioned<DirectiveModel>> {
    if !byte_at(s, p, AT) {
        fail(p, "expected '@'"@)
    } else {
        let q = skip(s, p + 1);
        if !name_at(s, q) {
            fail(q, "expected a name"@)
        } else {
            match arguments(s, skip(s, name_end(s, q + 1))) {
                Ok((args, end)) => Ok(
                    (
                        Positioned {
                            pos: pos_at(s, p),
                            node: DirectiveModel {
                                name: Positioned { pos: pos_at(s, q), node: name_text(s, q) },
                                arguments: args,
                            },
                        },
                        end,
                    ),
                ),
                Err(failure) => Err(failure),
            }
        }
    }
}

/// The directives from offset `p` on, behind the directives `acc`: as
/// many as there are, which may be none.
#[verifier::opaque]
pub open spec fn directives(s: Seq<u8>, p: int, acc: Seq<Positioned<DirectiveModel>>) -> Parsed<
    Seq<Positioned<DirectiveModel>>,
>
    decreases remaining(s, p),
{
    if byte_at(s, p, AT) {
        match directive(s, p) {
            Ok((d, end)) => if moved(s, p, end) {
                directives(s, end, acc.push(d))
            } else {
                fail(p, "expected '@'"@)
            },
            Err(failure) => Err(failure),
        }
    } else {
        Ok((acc, p))
    }
}

/// The type `t`, or the type that excludes null from it where `!` stands
/// at offset `end`.
pub open spec fn non_null(s: Seq<u8>, t: TypeModel, end: int) -> (TypeModel, int) {
    if byte_at(s, end, BANG) {
        (TypeModel::NonNull(Box::new(t)), skip(s, end + 1))
    } else {
        (t, end)
    }
}

/// The type reference at offset `p`: a name or a type between brackets,
/// each with `!` behind it or not.
#[verifier::opaque]
pub open spec fn type_reference(s: Seq<u8>, p: int) -> Parsed<TypeModel>
    decreases remaining(s, p),
{
    if byte_at(s, p, BRACKET_OPEN) {
        match type_reference(s, skip(s, p + 1)) {
            Ok((inner, end)) => if byte_at(s, end, BRACKET_CLOSE) {
                Ok(non_null(s, TypeModel::List(Box::new(inner)), skip(s, end + 1)))
            } else {
                fail(end, "expected ']'"@)
            },
            Err(failure) => Err(failure),
        }
    } else if name_at(s, p) {
        Ok(non_null(s, TypeModel::Named(name_text(s, p)), skip(s, name_end(s, p + 1))))
    } else {
        fail(p, "expected a type"@)
    }
}

/// The default value at offset `p`: `=` and a value.
#[verifier::opaque]
pub open spec fn default_value(s: Seq<u8>, p: int) -> Parsed<ValueModel> {
    if byte_at(s, p, EQUALS) {
        value(s, skip(s, p + 1))
    } else {
        fail(p, "expected '='"@)
    }
}

/// The definition of a variable at offset `p`: a variable, a colon, a
/// type and, where `=` follows, a default value, which has the position
/// of the `=`.
#[verifier::opaque]
pub open spec fn variable_definition(s: Seq<u8>, p: int) -> Parsed<
    Positioned<VariableDefinitionModel>,
> {
    match variable(s, p) {
        Err(failure) => Err(failure),
        Ok((name, colon)) => if !byte_at(s, colon, COLON) {
            fail(colon, "expected ':'"@)
        } else {
            let t = skip(s, colon + 1);
            match type_reference(s, t) {
                Err(failure) => Err(failure),
                Ok((ty, after)) => if byte_at(s, after, EQUALS) {
                    match default_value(s, after) {
                        Err(failure) => Err(failure),
                        Ok((d, end)) => Ok(
                            (
                                Positioned {
                                    pos: pos_at(s, p),
                                    node: VariableDefinitionModel {
                                        name,
                                        var_type: Positioned { pos: pos_at(s, t), node: ty },
                                        default_value: Some(
                                            Positioned { pos: pos_at(s, after), node: d },
                                        ),
                                    },
                                },
                                end,
                            ),
                        ),
                    }
                } else {
                    Ok(
                        (
                            Positioned {
                                pos: pos_at(s, p),
                                node: VariableDefinitionModel {
                                    name,
                                    var_type: Positioned { pos: pos_at(s, t), node: ty },
                                    default_value: None,
                                },
                            },
                            after,
                        ),
                    )
                },
            }
        },
    }
}

/// The definitions of variables from offset `p` on, behind the
/// definitions `acc`: up to the closing parenthesis.
#[verifier::opaque]
pub open spec fn variable_definition_list(
    s: Seq<u8>,
    p: int,
    acc: Seq<Positioned<VariableDefinitionModel>>,
) -> Parsed<Seq<Positioned<VariableDefinitionModel>>>
    decreases remaining(s, p),
{
    if byte_at(s, p, PAREN_CLOSE) {
        Ok((acc, skip(s, p + 1)))
    } else {
        match variable_definition(s, p) {
            Ok((definition, end)) => if moved(s, p, end) {
                variable_definition_list(s, end, acc.push(definition))
            } else {
                fail(p, "expected '$'"@)
            },
            Err(failure) => Err(failure),
        }
    }
}

/// The definitions of variables at offset `p`: between parentheses, or
/// none where no parenthesis opens.
#[verifier::opaque]
pub open spec fn variable_definitions(s: Seq<u8>, p: int) -> Parsed<
    Seq<Positioned<VariableDefinitionModel>>,
> {
    if byte_at(s, p, PAREN_OPEN) {
        variable_definition_list(s, skip(s, p + 1), Seq::empty())
    } else {
        Ok((Seq::empty(), p))
    }
}

/// Whether the three dots of a spread stand at offset `p`.
pub open spec fn dots_at(s: Seq<u8>, p: int) -> bool {
    byte_at(s, p, DOT) && byte_at(s, p + 1, DOT) && byte_at(s, p + 2, DOT)
}

/// Whether the name `word` stands at offset `p`.
pub open spec fn word_at(s: Seq<u8>, p: int, word: Seq<char>) -> bool {
    name_at(s, p) && name_text(s, p) == word
}

/// The name at offset `p`, with its position.
#[verifier::opaque]
pub open spec fn name(s: Seq<u8>, p: int) -> Parsed<Positioned<Seq<char>>> {
    if name_at(s, p) {
        Ok((Positioned { pos: pos_at(s, p), node: name_text(s, p) }, skip(s, name_end(s, p + 1))))
    } else {
        fail(p, "expected a name"@)
    }
}

/// The type condition at offset `p`: `on` and a name. The condition and
/// the name both have the position of the name.
#[verifier::opaque]
pub open spec fn type_condition(s: Seq<u8>, p: int) -> Parsed<Positioned<TypeConditionModel>> {
    if !word_at(s, p, "on"@) {
        fail(p, "expected 'on'"@)
    } else {
        match name(s, skip(s, name_end(s, p + 1))) {
            Ok((n, end)) => Ok((Positioned { pos: n.pos, node: TypeConditionModel::On(n) }, end)),
            Err(failure) => Err(failure),
        }
    }
}

/// The spread of a named fragment at offset `p`: three dots, a name and
/// directives.
#[verifier::opaque]
pub open spec fn fragment_spread(s: Seq<u8>, p: int) -> Parsed<Positioned<FragmentSpreadModel>> {
    if !dots_at(s, p) {
        fail(p, "expected '...'"@)
    } else {
        match name(s, skip(s, p + 3)) {
            Err(failure) => Err(failure),
            Ok((n, after)) => match directives(s, after, Seq::empty()) {
                Err(failure) => Err(failure),
                Ok((d, end)) => Ok(
                    (
                        Positioned {
                            pos: pos_at(s, p),
                            node: FragmentSpreadModel { fragment_name: n, directives: d },
                        },
                        end,
                    ),
                ),
            },
        }
    }
}

/// The alias that the name at offset `p` is, if a colon follows it, and
/// the offset of the name of the field.
pub open spec fn alias(s: Seq<u8>, p: int) -> (Option<Positioned<Seq<char>>>, int) {
    let colon = skip(s, name_end(s, p + 1));
    if byte_at(s, colon, COLON) {
        (Some(Positioned { pos: pos_at(s, p), node: name_text(s, p) }), skip(s, colon + 1))
    } else {
        (None, p)
    }
}

/// The selection set of a field that has none written.
pub open spec fn no_selection_set() -> Positioned<SelectionSetModel> {
    Positioned { pos: Pos { line: 0, column: 0 }, node: SelectionSetModel { items: Seq::empty() } }
}

/// The selection set at offset `p`: one selection or more between braces.
#[verifier::opaque]
pub open spec fn selection_set(s: Seq<u8>, p: int) -> Parsed<Positioned<SelectionSetModel>>
    decreases remaining(s, p), 3nat,
{
    if !byte_at(s, p, BRACE_OPEN) {
        fail(p, "expected '{'"@)
    } else {
        match selections(s, skip(s, p + 1), Seq::empty()) {
            Ok((items, end)) => Ok(
                (Positioned { pos: pos_at(s, p), node: SelectionSetModel { items } }, end),
            ),
            Err(failure) => Err(failure),
        }
    }
}

/// The selections from offset `p` on, behind the selections `acc`: up to
/// the closing brace, before which at least one selection stands.
#[verifier::opaque]
pub open spec fn selections(s: Seq<u8>, p: int, acc: Seq<Positioned<SelectionModel>>) -> Parsed<
    Seq<Positioned<SelectionModel>>,
>
    decreases remaining(s, p), 2nat,
{
    if byte_at(s, p, BRACE_CLOSE) {
        if acc.len() == 0 {
            fail(p, "expected a selection"@)
        } else {
            Ok((acc, skip(s, p + 1)))
        }
    } else {
        match selection(s, p) {
            Ok((item, end)) => if moved(s, p, end) {
                selections(s, end, acc.push(item))
            } else {
                fail(p, "expected a selection"@)
            },
            Err(failure) => Err(failure),
        }
    }
}

/// The selection at offset `p`. Three dots begin the spread of a named
/// fragment where a name other than `on` follows them, and an inline
/// fragment otherwise; a name begins a field. A selection has the
/// position of what it holds.
#[verifier::opaque]
pub open spec fn selection(s: Seq<u8>, p: int) -> Parsed<Positioned<SelectionModel>>
    decreases remaining(s, p), 1nat,
{
    if dots_at(s, p) {
        let q = skip(s, p + 3);
        if name_at(s, q) && name_text(s, q) != "on"@ {
            match fragment_spread(s, p) {
                Ok((f, end)) => Ok(
                    (Positioned { pos: f.pos, node: SelectionModel::FragmentSpread(f) }, end),
                ),
                Err(failure) => Err(failure),
            }
        } else {
            match inline_fragment(s, p) {
                Ok((f, end)) => Ok(
                    (Positioned { pos: f.pos, node: SelectionModel::InlineFragment(f) }, end),
                ),
                Err(failure) => Err(failure),
            }
        }
    } else if name_at(s, p) {
        match field(s, p) {
            Ok((f, end)) => Ok((Positioned { pos: f.pos, node: SelectionModel::Field(f) }, end)),
            Err(failure) => Err(failure),
        }
    } else {
        fail(p, "expected a selection"@)
    }
}

/// The field at offset `p`: an alias or none, a name, arguments,
/// directives, and a selection set where a brace opens one.
#[verifier::opaque]
pub open spec fn field(s: Seq<u8>, p: int) -> Parsed<Positioned<FieldModel>>
    decreases remaining(s, p), 0nat,
{
    if !name_at(s, p) {
        fail(p, "expected a name"@)
    } else {
        match name(s, alias(s, p).1) {
            Err(failure) => Err(failure),
            Ok((n, after)) => match arguments(s, after) {
                Err(failure) => Err(failure),
                Ok((args, e1)) => match directives(s, e1, Seq::empty()) {
                    Err(failure) => Err(failure),
                    Ok((dirs, e2)) => if byte_at(s, e2, BRACE_OPEN) {
                        if moved(s, p, e2) {
                            match selection_set(s, e2) {
                                Err(failure) => Err(failure),
                                Ok((set, end)) => Ok(
                                    (
                                        Positioned {
                                            pos: pos_at(s, p),
                                            node: FieldModel {
                                                alias: alias(s, p).0,
                                                name: n,
                                                arguments: args,
                                                directives: dirs,
                                                selection_set: set,
                                            },
                                        },
                                        end,
                                    ),
                                ),
                            }
                        } else {
                            fail(e2, "expected '{'"@)
                        }
                    } else {
                        Ok(
                            (
                                Positioned {
                                    pos: pos_at(s, p),
                                    node: FieldModel {
                                        alias: alias(s, p).0,
                                        name: n,
                                        arguments: args,
                                        directives: dirs,
                                        selection_set: no_selection_set(),
                                    },
                                },
                                e2,
                            ),
                        )
                    },
                },
            },
        }
    }
}

/// The type condition of an inline fragment whose dots end before offset
/// `q`: the one that begins there, or none where no name stands there.
pub open spec fn optional_type_condition(s: Seq<u8>, q: int) -> Parsed<
    Option<Positioned<TypeConditionModel>>,
> {
    if name_at(s, q) {
        match type_condition(s, q) {
            Ok((c, end)) => Ok((Some(c), end)),
            Err(failure) => Err(failure),
        }
    } else {
        Ok((None, q))
    }
}

/// The inline fragment at offset `p`: three dots, a type condition or
/// none, directives and a selection set.
#[verifier::opaque]
pub open spec fn inline_fragment(s: Seq<u8>, p: int) -> Parsed<Positioned<InlineFragmentModel>>
    decreases remaining(s, p), 0nat,
{
    if !dots_at(s, p) {
        fail(p, "expected '...'"@)
    } else {
        match optional_type_condition(s, skip(s, p + 3)) {
            Err(failure) => Err(failure),
            Ok((condition, e1)) => match directives(s, e1, Seq::empty()) {
                Err(failure) => Err(failure),
                Ok((dirs, e2)) => if moved(s, p, e2) {
                    match selection_set(s, e2) {
                        Err(failure) => Err(failure),
                        Ok((set, end)) => Ok(
                            (
                                Positioned {
                                    pos: pos_at(s, p),
                                    node: InlineFragmentModel {
                                        type_condition: condition,
                                        directives: dirs,
                                        selection_set: set,
                                    },
                                },
                                end,
                            ),
                        ),
                    }
                } else {
                    fail(e2, "expected '{'"@)
                },
            },
        }
    }
}

/// The kind of operation that the keyword `word` begins, if it is one.
pub open spec fn operation_kind(word: Seq<char>) -> Option<OperationType> {
    if word == "query"@ {
        Some(OperationType::Query)
    } else if word == "mutation"@ {
        Some(OperationType::Mutation)
    } else if word == "subscription"@ {
        Some(OperationType::Subscription)
    } else {
        None
    }
}

/// The definition of an operation of the given kind.
pub open spec fn operation_of(
    kind: OperationType,
    operation: Positioned<OperationModel>,
) -> OperationDefinitionModel {
    match kind {
        OperationType::Query => OperationDefinitionModel::Query(operation),
        OperationType::Mutation => OperationDefinitionModel::Mutation(operation),
        OperationType::Subscription => OperationDefinitionModel::Subscription(operation),
    }
}

/// The name of an operation at offset `q`, or none where no name stands
/// there.
pub open spec fn optional_name(s: Seq<u8>, q: int) -> (Option<Positioned<Seq<char>>>, int) {
    if name_at(s, q) {
        (
            Some(Positioned { pos: pos_at(s, q), node: name_text(s, q) }),
            skip(s, name_end(s, q + 1)),
        )
    } else {
        (None, q)
    }
}

/// The operation at offset `p` that is written with its keyword: the
/// keyword, a name or none, definitions of variables or none, directives
/// and a selection set.
#[verifier::opaque]
pub open spec fn named_operation_definition(s: Seq<u8>, p: int) -> Parsed<
    Positioned<OperationDefinitionModel>,
> {
    if !name_at(s, p) || operation_kind(name_text(s, p)) is None {
        fail(p, "expected a definition"@)
    } else {
        let named = optional_name(s, skip(s, name_end(s, p + 1)));
        match variable_definitions(s, named.1) {
            Err(failure) => Err(failure),
            Ok((vars, e1)) => match directives(s, e1, Seq::empty()) {
                Err(failure) => Err(failure),
                Ok((dirs, e2)) => match selection_set(s, e2) {
                    Err(failure) => Err(failure),
                    Ok((set, end)) => Ok(
                        (
                            Positioned {
                                pos: pos_at(s, p),
                                node: operation_of(
                                    operation_kind(name_text(s, p))->0,
                                    Positioned {
                                        pos: pos_at(s, p),
                                        node: OperationModel {
                                            name: named.0,
                                            variable_definitions: vars,
                                            directives: dirs,
                                            selection_set: set,
                                        },
                                    },
                                ),
                            },
                            end,
                        ),
                    ),
                },
            },
        }
    }
}

/// The definition of a fragment at offset `p`: `fragment`, a name, a type
/// condition, directives and a selection set.
#[verifier::opaque]
pub open spec fn fragment_definition(s: Seq<u8>, p: int) -> Parsed<
    Positioned<FragmentDefinitionModel>,
> {
    if !word_at(s, p, "fragment"@) {
        fail(p, "expected a definition"@)
    } else {
        match name(s, skip(s, name_end(s, p + 1))) {
            Err(failure) => Err(failure),
            Ok((n, e0)) => match type_condition(s, e0) {
                Err(failure) => Err(failure),
                Ok((condition, e1)) => match directives(s, e1, Seq::empty()) {
                    Err(failure) => Err(failure),
                    Ok((dirs, e2)) => match selection_set(s, e2) {
                        Err(failure) => Err(failure),
                        Ok((set, end)) => Ok(
                            (
                                Positioned {
                                    pos: pos_at(s, p),
                                    node: FragmentDefinitionModel {
                                        name: n,
                                        type_condition: condition,
                                        directives: dirs,
                                        selection_set: set,
                                    },
                                },
                                end,
                            ),
                        ),
                    },
                },
            },
        }
    }
}

/// The definition at offset `p`: a bare selection set, which is an
/// operation, the definition of a fragment, or an operation written with
/// its keyword. A definition has the position of what it holds.
#[verifier::opaque]
pub open spec fn definition(s: Seq<u8>, p: int) -> Parsed<Positioned<DefinitionModel>> {
    if byte_at(s, p, BRACE_OPEN) {
        match selection_set(s, p) {
            Err(failure) => Err(failure),
            Ok((set, end)) => Ok(
                (
                    Positioned {
                        pos: set.pos,
                        node: DefinitionModel::Operation(
                            Positioned {
                                pos: set.pos,
                                node: OperationDefinitionModel::SelectionSet(set),
                            },
                        ),
                    },
                    end,
                ),
            ),
        }
    } else if word_at(s, p, "fragment"@) {
        match fragment_definition(s, p) {
            Err(failure) => Err(failure),
            Ok((f, end)) => Ok((Positioned { pos: f.pos, node: DefinitionModel::Fragment(f) }, end)),
        }
    } else {
        match named_operation_definition(s, p) {
            Err(failure) => Err(failure),
            Ok((o, end)) => Ok(
                (Positioned { pos: o.pos, node: DefinitionModel::Operation(o) }, end),
            ),
        }
    }
}

/// The definitions from offset `p` on, behind the definitions `acc`: up
/// to the end of the text.
#[verifier::opaque]
pub open spec fn definitions(s: Seq<u8>, p: int, acc: Seq<Positioned<DefinitionModel>>) -> Parsed<
    Seq<Positioned<DefinitionModel>>,
>
    decreases remaining(s, p),
{
    if p < 0 || p >= s.len() {
        Ok((acc, p))
    } else {
        match definition(s, p) {
            Ok((d, end)) => if moved(s, p, end) {
                definitions(s, end, acc.push(d))
            } else {
                fail(p, "expected a definition"@)
            },
            Err(failure) => Err(failure),
        }
    }
}

/// The definitions of the document `s`: one or more, with nothing but
/// ignored text around them.
#[verifier::opaque]
pub open spec fn document(s: Seq<u8>) -> Result<Seq<Positioned<DefinitionModel>>, Failure> {
    if skip(s, 0) >= s.len() {
        Err(Failure { at: skip(s, 0), message: "expected a definition"@ })
    } else {
        match definitions(s, skip(s, 0), Seq::empty()) {
            Ok((found, _)) => Ok(found),
            Err(failure) => Err(failure),
        }
    }
}

/// The value that the text `s` writes: one value, with nothing but
/// ignored text around it.
#[verifier::opaque]
pub open spec fn lone_value(s: Seq<u8>) -> Result<ValueModel, Failure> {
    match value(s, skip(s, 0)) {
        Ok((v, end)) => if end >= s.len() {
            Ok(v)
        } else {
            Err(Failure { at: end, message: "expected end of input"@ })
        },
        Err(failure) => Err(failure),
    }
}

/// The failure for a text too long for its lines to be counted.
pub open spec fn too_long() -> Failure {
    Failure { at: 0, message: "source text too long"@ }
}

/// The outcome of parsing a text `s`: that of `m`, unless the text is too
/// long for its lines to be counted.
pub open spec fn within_limits<T>(s: Seq<u8>, m: Result<T, Failure>) -> Result<T, Failure> {
    if s.len() >= usize::MAX {
        Err(too_long())
    } else {
        m
    }
}

} // verus!
