//! The parser of request documents.
//!
//! For each production of the grammar there is a function that computes
//! what the production yields.

use crate::document::Document;
use crate::error::Error;
use crate::escape::unquote_string;
use crate::grammar::AT;
use crate::grammar::BANG;
use crate::grammar::BRACE_CLOSE;
use crate::grammar::BRACE_OPEN;
use crate::grammar::BRACKET_CLOSE;
use crate::grammar::BRACKET_OPEN;
use crate::grammar::COLON;
use crate::grammar::DOLLAR;
use crate::grammar::DOT;
use crate::grammar::EQUALS;
use crate::grammar::MINUS;
use crate::grammar::PAREN_CLOSE;
use crate::grammar::PAREN_OPEN;
use crate::grammar::QUOTE;
use crate::grammar::Source;
use crate::grammar::lemma_string_end_bounds;
use crate::grammar::name_end;
use crate::grammar::skip;
use crate::grammar::string_end;
use crate::pos::Pos;
use crate::pos::Positioned;
use crate::position::PositionCalculator;
use crate::position::pos_at;
use crate::query::Definition;
use crate::query::DefinitionModel;
use crate::query::Directive;
use crate::query::Field;
use crate::query::FragmentDefinition;
use crate::query::FragmentDefinitionModel;
use crate::query::FragmentSpread;
use crate::query::InlineFragment;
use crate::query::Mutation;
use crate::query::OperationDefinition;
use crate::query::OperationType;
use crate::query::Query;
use crate::query::Selection;
use crate::query::SelectionSet;
use crate::query::Subscription;
use crate::query::Type;
use crate::query::TypeCondition;
use crate::query::VariableDefinition;
use crate::query::lemma_selection_set_items;
use crate::syntax::Failure;
use crate::syntax::Parsed;
use crate::syntax::alias;
use crate::syntax::argument_list;
use crate::syntax::arguments;
use crate::syntax::array_items;
use crate::syntax::default_value;
use crate::syntax::definition;
use crate::syntax::definitions;
use crate::syntax::directive;
use crate::syntax::directives;
use crate::syntax::document;
use crate::syntax::dots_at;
use crate::syntax::field;
use crate::syntax::fragment_definition;
use crate::syntax::fragment_spread;
use crate::syntax::inline_fragment;
use crate::syntax::lone_value;
use crate::syntax::name;
use crate::syntax::named_operation_definition;
use crate::syntax::non_null;
use crate::syntax::number_value;
use crate::syntax::object_fields;
use crate::syntax::object_pair;
use crate::syntax::pair;
use crate::syntax::selection;
use crate::syntax::selection_set;
use crate::syntax::selections;
use crate::syntax::string_value;
use crate::syntax::type_condition;
use crate::syntax::type_reference;
use crate::syntax::value;
use crate::syntax::variable;
use crate::syntax::variable_definition;
use crate::syntax::variable_definition_list;
use crate::syntax::variable_definitions;
use crate::syntax::within_limits;
use crate::syntax::word_at;
use crate::syntax::word_value;
use crate::text::lemma_quoted_literal;
use crate::text::str_eq;
use crate::value::Value;
use crate::value::ValueModel;
use crate::value::object_insert;
use vstd::prelude::*;
use vstd::string::StringExecFns;
use vstd::string::StringSliceAdditionalSpecFns;

verus! {

/// Whether `r` is what the production `m` yields on the text `s`: the
/// same value and end, or an error with the failure's message at the
/// position of the failure's offset.
pub open spec fn agrees<T: DeepView>(
    s: Seq<u8>,
    r: Result<(T, usize), Error>,
    m: Parsed<T::V>,
) -> bool {
    match m {
        Ok((value, end)) => r matches Ok((x, e)) && x.deep_view() == value && e == end,
        Err(failure) => r matches Err(error) && error.pos == pos_at(s, failure.at)
            && error.message@ == failure.message,
    }
}

/// Whether the cursor `pc` walks the text of `src`.
pub open spec fn tracks(pc: PositionCalculator, src: Source) -> bool {
    pc.wf() && pc.source() == src@
}

/// Whether `r` is what the production `m` yields on the text of `src`
/// from `start` on, with a cursor that still walks that text and has not
/// passed the end of the production.
pub open spec fn yields<T: DeepView>(
    src: Source,
    start: usize,
    after: PositionCalculator,
    r: Result<(T, usize), Error>,
    m: Parsed<T::V>,
) -> bool {
    &&& tracks(after, src)
    &&& agrees(src@, r, m)
    &&& r matches Ok((_, end)) ==> start <= end <= src@.len() && after.offset() <= end
}

/// An error at the position of offset `at`.
fn syntax_error<T>(pc: &mut PositionCalculator, at: usize, message: &str) -> (r: Result<T, Error>)
    requires
        old(pc).wf(),
        old(pc).offset() <= at,
    ensures
        final(pc).wf(),
        final(pc).source() == old(pc).source(),
        r matches Err(error) && error.pos == pos_at(old(pc).source(), at as int) && error.message@
            == message@,
{
    let pos = pc.step(at);
    Err(Error::new(pos, String::from_str(message)))
}

/// Parses a variable: `$` and a name.
pub fn parse_variable(src: &Source, start: usize, pc: &mut PositionCalculator) -> (r: Result<
    (Positioned<String>, usize),
    Error,
>)
    requires
        src.wf(),
        tracks(*old(pc), *src),
        old(pc).offset() <= start <= src@.len(),
    ensures
        yields(*src, start, *final(pc), r, variable(src@, start as int)),
        r is Ok ==> start < r->Ok_0.1,
{
    proof {
        reveal(variable);
    }
    if !src.is(start, DOLLAR) {
        return syntax_error(pc, start, "expected '$'");
    }
    let q = src.skip(start + 1);
    if !src.name_starts(q) {
        return syntax_error(pc, q, "expected a name");
    }
    let name_stop = src.name_end(q + 1);
    let name = Positioned::new(src.ascii(q, name_stop), pc.step(q));
    Ok((name, src.skip(name_stop)))
}

/// Parses a number.
fn parse_number(src: &Source, start: usize, pc: &mut PositionCalculator) -> (r: Result<
    (Value, usize),
    Error,
>)
    requires
        src.wf(),
        tracks(*old(pc), *src),
        old(pc).offset() <= start <= src@.len(),
    ensures
        yields(*src, start, *final(pc), r, number_value(src@, start as int)),
        r is Ok ==> start < r->Ok_0.1,
{
    proof {
        reveal(number_value);
    }
    match src.number(start) {
        Err(gap) => syntax_error(pc, gap, "expected a digit"),
        Ok((end, float)) => {
            if float {
                Ok((Value::Float(src.ascii(start, end)), src.skip(end)))
            } else {
                match src.integer(start, end) {
                    Some(n) => Ok((Value::Int(n), src.skip(end))),
                    None => syntax_error(pc, start, "integer out of range"),
                }
            }
        },
    }
}

/// Parses a string literal.
fn parse_string(src: &Source, start: usize, pc: &mut PositionCalculator) -> (r: Result<
    (Value, usize),
    Error,
>)
    requires
        src.wf(),
        tracks(*old(pc), *src),
        old(pc).offset() <= start < src@.len(),
        src@[start as int] == QUOTE,
    ensures
        yields(*src, start, *final(pc), r, string_value(src@, start as int)),
        r is Ok ==> start < r->Ok_0.1,
{
    proof {
        reveal(string_value);
    }
    match src.string_end(start + 1) {
        Err(gap) => syntax_error(pc, gap, "unterminated string"),
        Ok(end) => {
            proof {
                lemma_string_end_bounds(src@, start + 1);
            }
            let literal = src.slice(start, end);
            proof {
                lemma_quoted_literal(src@.subrange(start as int, end as int));
            }
            let pos = pc.step(start);
            match unquote_string(literal, pos) {
                Ok(text) => Ok((Value::String(text), src.skip(end))),
                Err(error) => Err(error),
            }
        },
    }
}

/// The value that a bare word stands for.
fn parse_word(word: String) -> (r: Value)
    ensures
        r.deep_view() == word_value(word@),
{
    if str_eq(word.as_str(), "true") {
        Value::Boolean(true)
    } else if str_eq(word.as_str(), "false") {
        Value::Boolean(false)
    } else if str_eq(word.as_str(), "null") {
        Value::Null
    } else {
        Value::Enum(word)
    }
}

/// Parses a value of any kind.
pub fn parse_value2(src: &Source, start: usize, pc: &mut PositionCalculator) -> (r: Result<
    (Value, usize),
    Error,
>)
    requires
        src.wf(),
        tracks(*old(pc), *src),
        old(pc).offset() <= start <= src@.len(),
    ensures
        yields(*src, start, *final(pc), r, value(src@, start as int)),
        r is Ok ==> start < r->Ok_0.1,
    decreases src@.len() - start, 2nat,
{
    proof {
        reveal(value);
        reveal(array_items);
        reveal(object_pair);
        reveal(object_fields);
    }
    if src.is(start, DOLLAR) {
        match parse_variable(src, start, pc) {
            Ok((name, end)) => Ok((Value::Variable(name.into_inner()), end)),
            Err(error) => Err(error),
        }
    } else if src.is(start, BRACKET_OPEN) {
        parse_array_value(src, start, pc)
    } else if src.is(start, BRACE_OPEN) {
        parse_object_value(src, start, pc)
    } else if src.is(start, QUOTE) {
        parse_string(src, start, pc)
    } else if src.is(start, MINUS) || src.digit_starts(start) {
        parse_number(src, start, pc)
    } else if src.name_starts(start) {
        let end = src.name_end(start + 1);
        Ok((parse_word(src.ascii(start, end)), src.skip(end)))
    } else {
        syntax_error(pc, start, "expected a value")
    }
}

/// Parses a list: values between brackets.
#[verifier::loop_isolation(false)]
pub fn parse_array_value(src: &Source, start: usize, pc: &mut PositionCalculator) -> (r: Result<
    (Value, usize),
    Error,
>)
    requires
        src.wf(),
        tracks(*old(pc), *src),
        old(pc).offset() <= start < src@.len(),
        src@[start as int] == BRACKET_OPEN,
    ensures
        yields(
            *src,
            start,
            *final(pc),
            r,
            array_items(src@, skip(src@, start + 1), Seq::empty()),
        ),
        r is Ok ==> start < r->Ok_0.1,
    decreases src@.len() - start, 1nat,
{
    proof {
        reveal(array_items);
        reveal(value);
        reveal(object_pair);
        reveal(object_fields);
    }
    let mut array: Vec<Value> = Vec::new();
    let mut cur = src.skip(start + 1);
    let ghost goal = array_items(src@, skip(src@, start + 1), Seq::empty());
    assert(array.deep_view() =~= Seq::empty());
    loop
        invariant
            src.wf(),
            tracks(*pc, *src),
            start < cur <= src@.len(),
            pc.offset() <= cur,
            goal == array_items(src@, cur as int, array.deep_view()),
        decreases src@.len() - cur,
    {
        if src.is(cur, BRACKET_CLOSE) {
            let r = Value::List(array);
            assert(r.deep_view()->List_0 =~= array.deep_view());
            return Ok((r, src.skip(cur + 1)));
        }
        match parse_value2(src, cur, pc) {
            Ok((item, end)) => {
                let ghost before = array.deep_view();
                array.push(item);
                assert(array.deep_view() =~= before.push(item.deep_view()));
                cur = end;
            },
            Err(error) => {
                return Err(error);
            },
        }
    }
}

/// Parses one field of an object: a name, a colon and a value.
pub fn parse_object_pair(src: &Source, start: usize, pc: &mut PositionCalculator) -> (r: Result<
    ((String, Value), usize),
    Error,
>)
    requires
        src.wf(),
        tracks(*old(pc), *src),
        old(pc).offset() <= start <= src@.len(),
    ensures
        yields(*src, start, *final(pc), r, object_pair(src@, start as int)),
        r is Ok ==> start < r->Ok_0.1,
    decreases src@.len() - start, 3nat,
{
    proof {
        reveal(object_pair);
        reveal(value);
        reveal(array_items);
        reveal(object_fields);
    }
    if !src.name_starts(start) {
        return syntax_error(pc, start, "expected a name");
    }
    let name_stop = src.name_end(start + 1);
    let colon = src.skip(name_stop);
    if !src.is(colon, COLON) {
        return syntax_error(pc, colon, "expected ':'");
    }
    let name = src.ascii(start, name_stop);
    match parse_value2(src, src.skip(colon + 1), pc) {
        Ok((value, end)) => Ok(((name, value), end)),
        Err(error) => Err(error),
    }
}

/// Parses an object: fields between braces. A later field of a name
/// takes the place of an earlier one.
#[verifier::loop_isolation(false)]
pub fn parse_object_value(src: &Source, start: usize, pc: &mut PositionCalculator) -> (r: Result<
    (Value, usize),
    Error,
>)
    requires
        src.wf(),
        tracks(*old(pc), *src),
        old(pc).offset() <= start < src@.len(),
        src@[start as int] == BRACE_OPEN,
    ensures
        yields(
            *src,
            start,
            *final(pc),
            r,
            object_fields(src@, skip(src@, start + 1), Seq::empty()),
        ),
        r is Ok ==> start < r->Ok_0.1,
    decreases src@.len() - start, 1nat,
{
    proof {
        reveal(object_fields);
        reveal(value);
        reveal(array_items);
        reveal(object_pair);
    }
    let mut map: Vec<(String, Value)> = Vec::new();
    let mut cur = src.skip(start + 1);
    let ghost goal = object_fields(src@, skip(src@, start + 1), Seq::empty());
    assert(map.deep_view() =~= Seq::empty());
    loop
        invariant
            src.wf(),
            tracks(*pc, *src),
            start < cur <= src@.len(),
            pc.offset() <= cur,
            goal == object_fields(src@, cur as int, map.deep_view()),
        decreases src@.len() - cur,
    {
        if src.is(cur, BRACE_CLOSE) {
            let r = Value::Object(map);
            assert(r.deep_view()->Object_0 =~= map.deep_view());
            return Ok((r, src.skip(cur + 1)));
        }
        match parse_object_pair(src, cur, pc) {
            Ok((field, end)) => {
                object_insert(&mut map, field.0, field.1);
                cur = end;
            },
            Err(error) => {
                return Err(error);
            },
        }
    }
}

/// Parses one argument: a name, a colon and a value.
pub fn parse_pair(src: &Source, start: usize, pc: &mut PositionCalculator) -> (r: Result<
    ((Positioned<String>, Positioned<Value>), usize),
    Error,
>)
    requires
        src.wf(),
        tracks(*old(pc), *src),
        old(pc).offset() <= start <= src@.len(),
    ensures
        yields(*src, start, *final(pc), r, pair(src@, start as int)),
        r is Ok ==> start < r->Ok_0.1,
{
    proof {
        reveal(pair);
    }
    if !src.name_starts(start) {
        return syntax_error(pc, start, "expected a name");
    }
    let name_stop = src.name_end(start + 1);
    let colon = src.skip(name_stop);
    if !src.is(colon, COLON) {
        return syntax_error(pc, colon, "expected ':'");
    }
    let name = Positioned::new(src.ascii(start, name_stop), pc.step(start));
    let at = src.skip(colon + 1);
    let pos = pc.step(at);
    match parse_value2(src, at, pc) {
        Ok((value, end)) => Ok(((name, Positioned::new(value, pos)), end)),
        Err(error) => Err(error),
    }
}

/// Parses arguments: pairs between parentheses, or nothing where no
/// parenthesis opens.
#[verifier::loop_isolation(false)]
pub fn parse_arguments(src: &Source, start: usize, pc: &mut PositionCalculator) -> (r: Result<
    (Vec<(Positioned<String>, Positioned<Value>)>, usize),
    Error,
>)
    requires
        src.wf(),
        tracks(*old(pc), *src),
        old(pc).offset() <= start <= src@.len(),
    ensures
        yields(*src, start, *final(pc), r, arguments(src@, start as int)),
{
    proof {
        reveal(argument_list);
        reveal(arguments);
    }
    let mut list: Vec<(Positioned<String>, Positioned<Value>)> = Vec::new();
    assert(list.deep_view() =~= Seq::empty());
    if !src.is(start, PAREN_OPEN) {
        return Ok((list, start));
    }
    let mut cur = src.skip(start + 1);
    loop
        invariant
            tracks(*pc, *src),
            start < cur <= src@.len(),
            pc.offset() <= cur,
            arguments(src@, start as int) == argument_list(
                src@,
                cur as int,
                list.deep_view(),
            ),
        decreases src@.len() - cur,
    {
        if src.is(cur, PAREN_CLOSE) {
            return Ok((list, src.skip(cur + 1)));
        }
        match parse_pair(src, cur, pc) {
            Ok((argument, end)) => {
                let ghost before = list.deep_view();
                list.push(argument);
                assert(list.deep_view() =~= before.push(argument.deep_view()));
                cur = end;
            },
            Err(error) => {
                return Err(error);
            },
        }
    }
}

/// Parses a directive: `@`, a name and arguments.
pub fn parse_directive(src: &Source, start: usize, pc: &mut PositionCalculator) -> (r: Result<
    (Positioned<Directive>, usize),
    Error,
>)
    requires
        src.wf(),
        tracks(*old(pc), *src),
        old(pc).offset() <= start <= src@.len(),
    ensures
        yields(*src, start, *final(pc), r, directive(src@, start as int)),
        r is Ok ==> start < r->Ok_0.1,
{
    proof {
        reveal(directive);
    }
    if !src.is(start, AT) {
        return syntax_error(pc, start, "expected '@'");
    }
    let pos = pc.step(start);
    let q = src.skip(start + 1);
    if !src.name_starts(q) {
        return syntax_error(pc, q, "expected a name");
    }
    let name_stop = src.name_end(q + 1);
    let name = Positioned::new(src.ascii(q, name_stop), pc.step(q));
    match parse_arguments(src, src.skip(name_stop), pc) {
        Ok((arguments, end)) => Ok((Positioned::new(Directive { name, arguments }, pos), end)),
        Err(error) => Err(error),
    }
}

/// Parses directives: as many as there are, which may be none.
#[verifier::loop_isolation(false)]
pub fn parse_directives(src: &Source, start: usize, pc: &mut PositionCalculator) -> (r: Result<
    (Vec<Positioned<Directive>>, usize),
    Error,
>)
    requires
        src.wf(),
        tracks(*old(pc), *src),
        old(pc).offset() <= start <= src@.len(),
    ensures
        yields(*src, start, *final(pc), r, directives(src@, start as int, Seq::empty())),
{
    proof {
        reveal(directives);
    }
    let mut list: Vec<Positioned<Directive>> = Vec::new();
    assert(list.deep_view() =~= Seq::empty());
    let mut cur = start;
    loop
        invariant
            tracks(*pc, *src),
            start <= cur <= src@.len(),
            pc.offset() <= cur,
            directives(src@, start as int, Seq::empty()) == directives(
                src@,
                cur as int,
                list.deep_view(),
            ),
        decreases src@.len() - cur,
    {
        if !src.is(cur, AT) {
            return Ok((list, cur));
        }
        match parse_directive(src, cur, pc) {
            Ok((directive, end)) => {
                let ghost before = list.deep_view();
                list.push(directive);
                assert(list.deep_view() =~= before.push(directive.deep_view()));
                cur = end;
            },
            Err(error) => {
                return Err(error);
            },
        }
    }
}

fn parse_non_null(src: &Source, ty: Type, end: usize) -> (r: (Type, usize))
    requires
        src.wf(),
        end <= src@.len(),
    ensures
        (r.0.deep_view(), r.1 as int) == non_null(src@, ty.deep_view(), end as int),
        end <= r.1 <= src@.len(),
{
    if src.is(end, BANG) {
        (Type::NonNull(Box::new(ty)), src.skip(end + 1))
    } else {
        (ty, end)
    }
}

/// Parses a type reference: `T`, `[T]`, `T!`, and so on inward.
pub fn parse_type(src: &Source, start: usize, pc: &mut PositionCalculator) -> (r: Result<
    (Type, usize),
    Error,
>)
    requires
        src.wf(),
        tracks(*old(pc), *src),
        old(pc).offset() <= start <= src@.len(),
    ensures
        yields(*src, start, *final(pc), r, type_reference(src@, start as int)),
        r is Ok ==> start < r->Ok_0.1,
    decreases src@.len() - start,
{
    proof {
        reveal(type_reference);
    }
    if src.is(start, BRACKET_OPEN) {
        match parse_type(src, src.skip(start + 1), pc) {
            Ok((inner, end)) => {
                if !src.is(end, BRACKET_CLOSE) {
                    return syntax_error(pc, end, "expected ']'");
                }
                Ok(parse_non_null(src, Type::List(Box::new(inner)), src.skip(end + 1)))
            },
            Err(error) => Err(error),
        }
    } else if src.name_starts(start) {
        let end = src.name_end(start + 1);
        Ok(parse_non_null(src, Type::Named(src.ascii(start, end)), src.skip(end)))
    } else {
        syntax_error(pc, start, "expected a type")
    }
}

/// Parses a default value: `=` and a value.
pub fn parse_default_value(src: &Source, start: usize, pc: &mut PositionCalculator) -> (r: Result<
    (Value, usize),
    Error,
>)
    requires
        src.wf(),
        tracks(*old(pc), *src),
        old(pc).offset() <= start <= src@.len(),
    ensures
        yields(*src, start, *final(pc), r, default_value(src@, start as int)),
        r is Ok ==> start < r->Ok_0.1,
{
    proof {
        reveal(default_value);
    }
    if !src.is(start, EQUALS) {
        return syntax_error(pc, start, "expected '='");
    }
    parse_value2(src, src.skip(start + 1), pc)
}

/// Parses the definition of a variable: `$name: Type = default`.
pub fn parse_variable_definition(src: &Source, start: usize, pc: &mut PositionCalculator) -> (r:
    Result<(Positioned<VariableDefinition>, usize), Error>)
    requires
        src.wf(),
        tracks(*old(pc), *src),
        old(pc).offset() <= start <= src@.len(),
    ensures
        yields(*src, start, *final(pc), r, variable_definition(src@, start as int)),
        r is Ok ==> start < r->Ok_0.1,
{
    proof {
        reveal(variable_definition);
    }
    let pos = pc.step(start);
    let (variable, colon) = match parse_variable(src, start, pc) {
        Ok(found) => found,
        Err(error) => {
            return Err(error);
        },
    };
    if !src.is(colon, COLON) {
        return syntax_error(pc, colon, "expected ':'");
    }
    let t = src.skip(colon + 1);
    let type_pos = pc.step(t);
    let (ty, after) = match parse_type(src, t, pc) {
        Ok(found) => found,
        Err(error) => {
            return Err(error);
        },
    };
    let ty = Positioned::new(ty, type_pos);
    if src.is(after, EQUALS) {
        let default_pos = pc.step(after);
        match parse_default_value(src, after, pc) {
            Ok((value, end)) => Ok(
                (
                    Positioned::new(
                        VariableDefinition {
                            name: variable,
                            var_type: ty,
                            default_value: Some(Positioned::new(value, default_pos)),
                        },
                        pos,
                    ),
                    end,
                ),
            ),
            Err(error) => Err(error),
        }
    } else {
        Ok(
            (
                Positioned::new(
                    VariableDefinition { name: variable, var_type: ty, default_value: None },
                    pos,
                ),
                after,
            ),
        )
    }
}

/// Parses the definitions of variables: between parentheses, or nothing
/// where no parenthesis opens.
#[verifier::loop_isolation(false)]
pub fn parse_variable_definitions(src: &Source, start: usize, pc: &mut PositionCalculator) -> (r:
    Result<(Vec<Positioned<VariableDefinition>>, usize), Error>)
    requires
        src.wf(),
        tracks(*old(pc), *src),
        old(pc).offset() <= start <= src@.len(),
    ensures
        yields(*src, start, *final(pc), r, variable_definitions(src@, start as int)),
{
    proof {
        reveal(variable_definition_list);
        reveal(variable_definitions);
    }
    let mut vars: Vec<Positioned<VariableDefinition>> = Vec::new();
    assert(vars.deep_view() =~= Seq::empty());
    if !src.is(start, PAREN_OPEN) {
        return Ok((vars, start));
    }
    let mut cur = src.skip(start + 1);
    loop
        invariant
            tracks(*pc, *src),
            start < cur <= src@.len(),
            pc.offset() <= cur,
            variable_definitions(src@, start as int) == variable_definition_list(
                src@,
                cur as int,
                vars.deep_view(),
            ),
        decreases src@.len() - cur,
    {
        if src.is(cur, PAREN_CLOSE) {
            return Ok((vars, src.skip(cur + 1)));
        }
        match parse_variable_definition(src, cur, pc) {
            Ok((definition, end)) => {
                let ghost before = vars.deep_view();
                vars.push(definition);
                assert(vars.deep_view() =~= before.push(definition.deep_view()));
                cur = end;
            },
            Err(error) => {
                return Err(error);
            },
        }
    }
}

/// Parses a name.
pub fn parse_name(src: &Source, start: usize, pc: &mut PositionCalculator) -> (r: Result<
    (Positioned<String>, usize),
    Error,
>)
    requires
        src.wf(),
        tracks(*old(pc), *src),
        old(pc).offset() <= start <= src@.len(),
    ensures
        yields(*src, start, *final(pc), r, name(src@, start as int)),
        r is Ok ==> start < r->Ok_0.1,
{
    proof {
        reveal(name);
    }
    if !src.name_starts(start) {
        return syntax_error(pc, start, "expected a name");
    }
    let end = src.name_end(start + 1);
    let name = Positioned::new(src.ascii(start, end), pc.step(start));
    Ok((name, src.skip(end)))
}

/// Whether the name `word` stands at offset `start`.
fn word_starts(src: &Source, start: usize, word: &str) -> (r: bool)
    requires
        src.wf(),
        start <= src@.len(),
    ensures
        r == word_at(src@, start as int, word@),
{
    if src.name_starts(start) {
        let end = src.name_end(start + 1);
        str_eq(src.ascii(start, end).as_str(), word)
    } else {
        false
    }
}

/// Whether the three dots of a spread stand at offset `start`.
fn dots_start(src: &Source, start: usize) -> (r: bool)
    requires
        src.wf(),
        start <= src@.len(),
    ensures
        r == dots_at(src@, start as int),
{
    src.is(start, DOT) && src.is(start + 1, DOT) && src.is(start + 2, DOT)
}

/// Parses a type condition: `on` and a name.
pub fn parse_type_condition(src: &Source, start: usize, pc: &mut PositionCalculator) -> (r: Result<
    (Positioned<TypeCondition>, usize),
    Error,
>)
    requires
        src.wf(),
        tracks(*old(pc), *src),
        old(pc).offset() <= start <= src@.len(),
    ensures
        yields(*src, start, *final(pc), r, type_condition(src@, start as int)),
        r is Ok ==> start < r->Ok_0.1,
{
    proof {
        reveal(type_condition);
    }
    if !word_starts(src, start, "on") {
        return syntax_error(pc, start, "expected 'on'");
    }
    let q = src.skip(src.name_end(start + 1));
    match parse_name(src, q, pc) {
        Ok((name, end)) => {
            let pos = name.position();
            Ok((Positioned::new(TypeCondition::On(name), pos), end))
        },
        Err(error) => Err(error),
    }
}

/// Parses the spread of a named fragment: `...Name @directives`.
pub fn parse_fragment_spread(src: &Source, start: usize, pc: &mut PositionCalculator) -> (r: Result<
    (Positioned<FragmentSpread>, usize),
    Error,
>)
    requires
        src.wf(),
        tracks(*old(pc), *src),
        old(pc).offset() <= start <= src@.len(),
    ensures
        yields(*src, start, *final(pc), r, fragment_spread(src@, start as int)),
        r is Ok ==> start < r->Ok_0.1,
{
    proof {
        reveal(fragment_spread);
    }
    if !dots_start(src, start) {
        return syntax_error(pc, start, "expected '...'");
    }
    let pos = pc.step(start);
    let (name, after) = match parse_name(src, src.skip(start + 3), pc) {
        Ok(found) => found,
        Err(error) => {
            return Err(error);
        },
    };
    match parse_directives(src, after, pc) {
        Ok((directives, end)) => Ok(
            (Positioned::new(FragmentSpread { fragment_name: name, directives }, pos), end),
        ),
        Err(error) => Err(error),
    }
}

/// Parses the alias of a field, where the name at `start` is one: the
/// alias and the offset of the name of the field.
pub fn parse_alias(src: &Source, start: usize, pc: &mut PositionCalculator) -> (r: (
    Option<Positioned<String>>,
    usize,
))
    requires
        src.wf(),
        tracks(*old(pc), *src),
        old(pc).offset() <= start < src@.len(),
    ensures
        tracks(*final(pc), *src),
        final(pc).offset() <= r.1,
        start <= r.1 <= src@.len(),
        (r.0.deep_view(), r.1 as int) == alias(src@, start as int),
{
    let name_stop = src.name_end(start + 1);
    let colon = src.skip(name_stop);
    if src.is(colon, COLON) {
        let alias = Positioned::new(src.ascii(start, name_stop), pc.step(start));
        (Some(alias), src.skip(colon + 1))
    } else {
        (None, start)
    }
}

/// Parses a selection set: one selection or more between braces.
#[verifier::loop_isolation(false)]
pub fn parse_selection_set(src: &Source, start: usize, pc: &mut PositionCalculator) -> (r: Result<
    (Positioned<SelectionSet>, usize),
    Error,
>)
    requires
        src.wf(),
        tracks(*old(pc), *src),
        old(pc).offset() <= start <= src@.len(),
    ensures
        yields(*src, start, *final(pc), r, selection_set(src@, start as int)),
        r is Ok ==> start < r->Ok_0.1,
    decreases src@.len() - start, 2nat,
{
    proof {
        reveal(selection_set);
        reveal(selections);
        reveal(selection);
        reveal(field);
        reveal(inline_fragment);
    }
    if !src.is(start, BRACE_OPEN) {
        return syntax_error(pc, start, "expected '{'");
    }
    let pos = pc.step(start);
    let mut items: Vec<Positioned<Selection>> = Vec::new();
    assert(items.deep_view() =~= Seq::empty());
    let mut cur = src.skip(start + 1);
    loop
        invariant
            tracks(*pc, *src),
            start < cur <= src@.len(),
            pc.offset() <= cur,
            selections(src@, skip(src@, start + 1), Seq::empty()) == selections(
                src@,
                cur as int,
                items.deep_view(),
            ),
        decreases src@.len() - cur,
    {
        if src.is(cur, BRACE_CLOSE) {
            if items.len() == 0 {
                return syntax_error(pc, cur, "expected a selection");
            }
            let set = SelectionSet { items };
            proof {
                lemma_selection_set_items(set);
            }
            return Ok((Positioned::new(set, pos), src.skip(cur + 1)));
        }
        match parse_selection(src, cur, pc) {
            Ok((item, end)) => {
                let ghost before = items.deep_view();
                items.push(item);
                assert(items.deep_view() =~= before.push(item.deep_view()));
                cur = end;
            },
            Err(error) => {
                return Err(error);
            },
        }
    }
}

/// Parses a selection: a field, the spread of a named fragment, or an
/// inline fragment.
pub fn parse_selection(src: &Source, start: usize, pc: &mut PositionCalculator) -> (r: Result<
    (Positioned<Selection>, usize),
    Error,
>)
    requires
        src.wf(),
        tracks(*old(pc), *src),
        old(pc).offset() <= start <= src@.len(),
    ensures
        yields(*src, start, *final(pc), r, selection(src@, start as int)),
        r is Ok ==> start < r->Ok_0.1,
    decreases src@.len() - start, 1nat,
{
    proof {
        reveal(selection);
        reveal(selection_set);
        reveal(selections);
        reveal(field);
        reveal(inline_fragment);
    }
    if dots_start(src, start) {
        let q = src.skip(start + 3);
        if src.name_starts(q) && !word_starts(src, q, "on") {
            match parse_fragment_spread(src, start, pc) {
                Ok((spread, end)) => {
                    let pos = spread.position();
                    Ok((Positioned::new(Selection::FragmentSpread(spread), pos), end))
                },
                Err(error) => Err(error),
            }
        } else {
            match parse_inline_fragment(src, start, pc) {
                Ok((fragment, end)) => {
                    let pos = fragment.position();
                    Ok((Positioned::new(Selection::InlineFragment(fragment), pos), end))
                },
                Err(error) => Err(error),
            }
        }
    } else if src.name_starts(start) {
        match parse_field(src, start, pc) {
            Ok((field, end)) => {
                let pos = field.position();
                Ok((Positioned::new(Selection::Field(field), pos), end))
            },
            Err(error) => Err(error),
        }
    } else {
        syntax_error(pc, start, "expected a selection")
    }
}

/// Parses a field: `alias: name(arguments) @directives { selections }`.
pub fn parse_field(src: &Source, start: usize, pc: &mut PositionCalculator) -> (r: Result<
    (Positioned<Field>, usize),
    Error,
>)
    requires
        src.wf(),
        tracks(*old(pc), *src),
        old(pc).offset() <= start <= src@.len(),
    ensures
        yields(*src, start, *final(pc), r, field(src@, start as int)),
        r is Ok ==> start < r->Ok_0.1,
    decreases src@.len() - start, 0nat,
{
    proof {
        reveal(field);
        reveal(selection_set);
        reveal(selections);
        reveal(selection);
        reveal(inline_fragment);
    }
    if !src.name_starts(start) {
        return syntax_error(pc, start, "expected a name");
    }
    let pos = pc.step(start);
    let (alias, name_start) = parse_alias(src, start, pc);
    let (name, after) = match parse_name(src, name_start, pc) {
        Ok(found) => found,
        Err(error) => {
            return Err(error);
        },
    };
    let (arguments, e1) = match parse_arguments(src, after, pc) {
        Ok(found) => found,
        Err(error) => {
            return Err(error);
        },
    };
    let (directives, e2) = match parse_directives(src, e1, pc) {
        Ok(found) => found,
        Err(error) => {
            return Err(error);
        },
    };
    if src.is(e2, BRACE_OPEN) {
        match parse_selection_set(src, e2, pc) {
            Ok((selection_set, end)) => Ok(
                (
                    Positioned::new(
                        Field { alias, name, arguments, directives, selection_set },
                        pos,
                    ),
                    end,
                ),
            ),
            Err(error) => Err(error),
        }
    } else {
        let selection_set = Positioned::new(
            SelectionSet { items: Vec::new() },
            Pos { line: 0, column: 0 },
        );
        proof {
            lemma_selection_set_items(selection_set.node);
            assert(selection_set.deep_view().node.items =~= Seq::empty());
        }
        Ok(
            (
                Positioned::new(Field { alias, name, arguments, directives, selection_set }, pos),
                e2,
            ),
        )
    }
}

/// Parses an inline fragment: `... on Type @directives { selections }`.
pub fn parse_inline_fragment(src: &Source, start: usize, pc: &mut PositionCalculator) -> (r: Result<
    (Positioned<InlineFragment>, usize),
    Error,
>)
    requires
        src.wf(),
        tracks(*old(pc), *src),
        old(pc).offset() <= start <= src@.len(),
    ensures
        yields(*src, start, *final(pc), r, inline_fragment(src@, start as int)),
        r is Ok ==> start < r->Ok_0.1,
    decreases src@.len() - start, 0nat,
{
    proof {
        reveal(inline_fragment);
        reveal(selection_set);
        reveal(selections);
        reveal(selection);
        reveal(field);
    }
    if !dots_start(src, start) {
        return syntax_error(pc, start, "expected '...'");
    }
    let pos = pc.step(start);
    let q = src.skip(start + 3);
    let (type_condition, e1) = if src.name_starts(q) {
        match parse_type_condition(src, q, pc) {
            Ok((condition, end)) => (Some(condition), end),
            Err(error) => {
                return Err(error);
            },
        }
    } else {
        (None, q)
    };
    let (directives, e2) = match parse_directives(src, e1, pc) {
        Ok(found) => found,
        Err(error) => {
            return Err(error);
        },
    };
    match parse_selection_set(src, e2, pc) {
        Ok((selection_set, end)) => Ok(
            (
                Positioned::new(InlineFragment { type_condition, directives, selection_set }, pos),
                end,
            ),
        ),
        Err(error) => Err(error),
    }
}

/// Parses an operation that is written with its keyword:
/// `query Name($variables) @directives { selections }`.
pub fn parse_named_operation_definition(
    src: &Source,
    start: usize,
    pc: &mut PositionCalculator,
) -> (r: Result<(Positioned<OperationDefinition>, usize), Error>)
    requires
        src.wf(),
        tracks(*old(pc), *src),
        old(pc).offset() <= start <= src@.len(),
    ensures
        yields(*src, start, *final(pc), r, named_operation_definition(src@, start as int)),
        r is Ok ==> start < r->Ok_0.1,
{
    proof {
        reveal(named_operation_definition);
    }
    if !src.name_starts(start) {
        return syntax_error(pc, start, "expected a definition");
    }
    let keyword_end = src.name_end(start + 1);
    let keyword = src.ascii(start, keyword_end);
    let operation_type = if str_eq(keyword.as_str(), "query") {
        OperationType::Query
    } else if str_eq(keyword.as_str(), "mutation") {
        OperationType::Mutation
    } else if str_eq(keyword.as_str(), "subscription") {
        OperationType::Subscription
    } else {
        return syntax_error(pc, start, "expected a definition");
    };
    let pos = pc.step(start);
    let q = src.skip(keyword_end);
    let (name, e0) = if src.name_starts(q) {
        let name_stop = src.name_end(q + 1);
        (Some(Positioned::new(src.ascii(q, name_stop), pc.step(q))), src.skip(name_stop))
    } else {
        (None, q)
    };
    let (variable_definitions, e1) = match parse_variable_definitions(src, e0, pc) {
        Ok(found) => found,
        Err(error) => {
            return Err(error);
        },
    };
    let (directives, e2) = match parse_directives(src, e1, pc) {
        Ok(found) => found,
        Err(error) => {
            return Err(error);
        },
    };
    let (selection_set, end) = match parse_selection_set(src, e2, pc) {
        Ok(found) => found,
        Err(error) => {
            return Err(error);
        },
    };
    Ok(
        (
            match operation_type {
                OperationType::Query => Positioned::new(
                    OperationDefinition::Query(
                        Positioned::new(
                            Query { name, variable_definitions, directives, selection_set },
                            pos,
                        ),
                    ),
                    pos,
                ),
                OperationType::Mutation => Positioned::new(
                    OperationDefinition::Mutation(
                        Positioned::new(
                            Mutation { name, variable_definitions, directives, selection_set },
                            pos,
                        ),
                    ),
                    pos,
                ),
                OperationType::Subscription => Positioned::new(
                    OperationDefinition::Subscription(
                        Positioned::new(
                            Subscription { name, variable_definitions, directives, selection_set },
                            pos,
                        ),
                    ),
                    pos,
                ),
            },
            end,
        ),
    )
}

/// Parses the definition of a fragment:
/// `fragment Name on Type @directives { selections }`.
pub fn parse_fragment_definition(src: &Source, start: usize, pc: &mut PositionCalculator) -> (r:
    Result<(Positioned<FragmentDefinition>, usize), Error>)
    requires
        src.wf(),
        tracks(*old(pc), *src),
        old(pc).offset() <= start <= src@.len(),
    ensures
        yields(*src, start, *final(pc), r, fragment_definition(src@, start as int)),
        r is Ok ==> start < r->Ok_0.1,
{
    proof {
        reveal(fragment_definition);
    }
    if !word_starts(src, start, "fragment") {
        return syntax_error(pc, start, "expected a definition");
    }
    let pos = pc.step(start);
    let q = src.skip(src.name_end(start + 1));
    let (name, e0) = match parse_name(src, q, pc) {
        Ok(found) => found,
        Err(error) => {
            return Err(error);
        },
    };
    let (type_condition, e1) = match parse_type_condition(src, e0, pc) {
        Ok(found) => found,
        Err(error) => {
            return Err(error);
        },
    };
    let (directives, e2) = match parse_directives(src, e1, pc) {
        Ok(found) => found,
        Err(error) => {
            return Err(error);
        },
    };
    match parse_selection_set(src, e2, pc) {
        Ok((selection_set, end)) => Ok(
            (
                Positioned::new(
                    FragmentDefinition { name, type_condition, directives, selection_set },
                    pos,
                ),
                end,
            ),
        ),
        Err(error) => Err(error),
    }
}

/// Parses one definition of a document.
pub fn parse_definition(src: &Source, start: usize, pc: &mut PositionCalculator) -> (r: Result<
    (Positioned<Definition>, usize),
    Error,
>)
    requires
        src.wf(),
        tracks(*old(pc), *src),
        old(pc).offset() <= start <= src@.len(),
    ensures
        yields(*src, start, *final(pc), r, definition(src@, start as int)),
        r is Ok ==> start < r->Ok_0.1,
{
    proof {
        reveal(definition);
    }
    if src.is(start, BRACE_OPEN) {
        match parse_selection_set(src, start, pc) {
            Ok((set, end)) => {
                let pos = set.position();
                Ok(
                    (
                        Positioned::new(
                            Definition::Operation(
                                Positioned::new(OperationDefinition::SelectionSet(set), pos),
                            ),
                            pos,
                        ),
                        end,
                    ),
                )
            },
            Err(error) => Err(error),
        }
    } else if word_starts(src, start, "fragment") {
        match parse_fragment_definition(src, start, pc) {
            Ok((fragment, end)) => {
                let pos = fragment.position();
                Ok((Positioned::new(Definition::Fragment(fragment), pos), end))
            },
            Err(error) => Err(error),
        }
    } else {
        match parse_named_operation_definition(src, start, pc) {
            Ok((operation, end)) => {
                let pos = operation.position();
                Ok((Positioned::new(Definition::Operation(operation), pos), end))
            },
            Err(error) => Err(error),
        }
    }
}

/// Whether `r` is the outcome `m` of parsing the text `s`.
pub open spec fn parsed_as<T: DeepView>(s: Seq<u8>, r: Result<T, Error>, m: Result<T::V, Failure>) -> bool {
    match m {
        Ok(value) => r matches Ok(x) && x.deep_view() == value,
        Err(failure) => r matches Err(error) && error.pos == pos_at(s, failure.at)
            && error.message@ == failure.message,
    }
}

/// Parses the definitions of a document.
#[verifier::loop_isolation(false)]
fn parse_definitions(src: &Source, pc: &mut PositionCalculator) -> (r: Result<
    Vec<Positioned<Definition>>,
    Error,
>)
    requires
        src.wf(),
        tracks(*old(pc), *src),
        old(pc).offset() == 0,
    ensures
        parsed_as(src@, r, document(src@)),
{
    proof {
        reveal(definitions);
        reveal(document);
    }
    let mut list: Vec<Positioned<Definition>> = Vec::new();
    assert(list.deep_view() =~= Seq::empty());
    let first = src.skip(0);
    if first >= src.len() {
        return syntax_error(pc, first, "expected a definition");
    }
    let mut cur = first;
    loop
        invariant
            tracks(*pc, *src),
            first <= cur <= src@.len(),
            pc.offset() <= cur,
            definitions(src@, first as int, Seq::empty()) == definitions(
                src@,
                cur as int,
                list.deep_view(),
            ),
        decreases src@.len() - cur,
    {
        if cur >= src.len() {
            return Ok(list);
        }
        match parse_definition(src, cur, pc) {
            Ok((definition, end)) => {
                let ghost before = list.deep_view();
                list.push(definition);
                assert(list.deep_view() =~= before.push(definition.deep_view()));
                cur = end;
            },
            Err(error) => {
                return Err(error);
            },
        }
    }
}

/// Whether `r` is the document with the definitions `m`, parsed from
/// `input` and not yet resolved.
pub open spec fn document_as(
    input: &str,
    r: Result<Document, Error>,
    m: Result<Seq<Positioned<DefinitionModel>>, Failure>,
) -> bool {
    match m {
        Ok(found) => r matches Ok(doc) && doc.definition_models() == found && doc.source_text()
            == input@ && doc.fragment_table() == Map::<
            Seq<char>,
            Positioned<FragmentDefinitionModel>,
        >::empty() && doc.fragments_in_order().len() == 0 && doc.operation_model() is None,
        Err(failure) => r matches Err(error) && error.pos == pos_at(
            input.spec_bytes(),
            failure.at,
        ) && error.message@ == failure.message,
    }
}

/// Parses a request document: operations and fragment definitions. The
/// document that comes back holds the definitions in the order written,
/// each node with the position of its first token, and is not yet
/// resolved. The first thing that is wrong with the text fails the whole
/// parse, with the position at which it stands.
pub fn parse_query(input: &str) -> (r: Result<Document, Error>)
    ensures
        document_as(input, r, within_limits(input.spec_bytes(), document(input.spec_bytes()))),
{
    proof {
        reveal(document);
    }
    let src = match Source::new(input) {
        Some(src) => src,
        None => {
            return Err(
                Error::new(Pos { line: 1, column: 1 }, String::from_str("source text too long")),
            );
        },
    };
    let mut pc = PositionCalculator::new(input);
    match parse_definitions(&src, &mut pc) {
        Ok(found) => Ok(Document::new(input.to_owned(), found)),
        Err(error) => Err(error),
    }
}

/// A value together with the text that it was parsed from.
#[derive(Debug)]
pub struct ParsedValue {
    source: String,
    value: Value,
}

impl ParsedValue {
    /// The text that the value was parsed from.
    pub closed spec fn source_text(&self) -> Seq<char> {
        self.source@
    }

    /// What the value holds.
    pub closed spec fn value_model(&self) -> ValueModel {
        self.value.deep_view()
    }

    /// The value.
    pub fn value(&self) -> (r: &Value)
        ensures
            r.deep_view() == self.value_model(),
    {
        &self.value
    }

    /// The value, without the text.
    pub fn into_value(self) -> (r: Value)
        ensures
            r.deep_view() == self.value_model(),
    {
        self.value
    }

    /// The text that the value was parsed from.
    pub fn source(&self) -> (r: &str)
        ensures
            r@ == self.source_text(),
    {
        self.source.as_str()
    }
}

/// Whether `r` is the value `m`, parsed from `input`.
pub open spec fn value_as(input: &str, r: Result<ParsedValue, Error>, m: Result<ValueModel, Failure>) -> bool {
    match m {
        Ok(found) => r matches Ok(parsed) && parsed.value_model() == found && parsed.source_text()
            == input@,
        Err(failure) => r matches Err(error) && error.pos == pos_at(
            input.spec_bytes(),
            failure.at,
        ) && error.message@ == failure.message,
    }
}

/// Parses a text that writes one value.
pub fn parse_value(input: &str) -> (r: Result<ParsedValue, Error>)
    ensures
        value_as(input, r, within_limits(input.spec_bytes(), lone_value(input.spec_bytes()))),
{
    proof {
        reveal(lone_value);
    }
    let src = match Source::new(input) {
        Some(src) => src,
        None => {
            return Err(
                Error::new(Pos { line: 1, column: 1 }, String::from_str("source text too long")),
            );
        },
    };
    let mut pc = PositionCalculator::new(input);
    let start = src.skip(0);
    match parse_value2(&src, start, &mut pc) {
        Ok((value, end)) => {
            if end < src.len() {
                let pos = pc.step(end);
                Err(Error::new(pos, String::from_str("expected end of input")))
            } else {
                Ok(ParsedValue { source: input.to_owned(), value })
            }
        },
        Err(error) => Err(error),
    }
}

/// Parsing one text twice gives the same document both times, or the
/// same error.
pub proof fn lemma_same_text_same_document(
    input: &str,
    one: Result<Document, Error>,
    two: Result<Document, Error>,
)
    requires
        document_as(input, one, within_limits(input.spec_bytes(), document(input.spec_bytes()))),
        document_as(input, two, within_limits(input.spec_bytes(), document(input.spec_bytes()))),
    ensures
        one is Ok <==> two is Ok,
        one matches Ok(a) ==> (two matches Ok(b) ==> a.definition_models() == b.definition_models()
            && a.source_text() == b.source_text() && a.fragment_table() == b.fragment_table()
            && a.operation_model() == b.operation_model()),
        one matches Err(a) ==> (two matches Err(b) ==> a.deep_view() == b.deep_view()),
{
    reveal(document);
}

/// Parsing one text twice gives the same value both times, or the same
/// error.
pub proof fn lemma_same_text_same_value(
    input: &str,
    one: Result<ParsedValue, Error>,
    two: Result<ParsedValue, Error>,
)
    requires
        value_as(input, one, within_limits(input.spec_bytes(), lone_value(input.spec_bytes()))),
        value_as(input, two, within_limits(input.spec_bytes(), lone_value(input.spec_bytes()))),
    ensures
        one is Ok <==> two is Ok,
        one matches Ok(a) ==> (two matches Ok(b) ==> a.value_model() == b.value_model()
            && a.source_text() == b.source_text()),
        one matches Err(a) ==> (two matches Err(b) ==> a.deep_view() == b.deep_view()),
{
    reveal(lone_value);
}

} // verus!
