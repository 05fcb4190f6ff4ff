//! From tree to text and back: the text of an expression that is made of
//! names, literals and operators parses to that very expression, so that
//! rendering what was parsed is stable.

use vstd::prelude::*;
use crate::ast::ExpressionView;
use crate::ast::StatementView;
use crate::lexer::decimal_value;
use crate::lexer::lemma_tokens_unfold;
use crate::lexer::tokens;
use crate::numerals::is_numeral;
use crate::numerals::lemma_value_then_text;
use crate::parser::Diagnostic;
use crate::parser::parse_spec;
use crate::plain::lemma_expression_tokens;
use crate::plain::lemma_text_front;
use crate::plain::plain;
use crate::plain::separate;
use crate::provenance::lemma_plain_by_parts;
use crate::provenance::lemma_program_named;
use crate::provenance::lemma_tokens_worded;
use crate::provenance::operators_only;
use crate::provenance::well_named;
use crate::render::each_ended;
use crate::render::expression_text;
use crate::render::program_text;
use crate::render::statement_text;
use crate::render::statement_texts;
use crate::reparsing::lemma_plain_program;
use crate::reparsing::plain_program;
use crate::reparsing::plain_statement;
use crate::reparsing::program_tokens;

verus! {

/// The program of one statement that is the expression `e`.
pub open spec fn lone(e: ExpressionView) -> Seq<StatementView> {
    seq![StatementView::Expression { expression: e }]
}

/// The text of a program of one expression is the text of the expression.
pub proof fn lemma_lone_text(e: ExpressionView)
    ensures
        program_text(lone(e)) == expression_text(e),
{
    let texts = statement_texts(lone(e));
    let nothing = Seq::<char>::empty();
    assert(texts =~= seq![expression_text(e)]);
    assert(texts.drop_last() =~= Seq::<Seq<char>>::empty());
    assert(each_ended(texts.drop_last(), nothing) =~= nothing);
    assert(nothing + expression_text(e) + nothing =~= expression_text(e));
}

/// Whether each statement of a plain program can be followed by the text
/// of the next without running into it.
pub open spec fn spaced(list: Seq<StatementView>) -> bool {
    forall|i: int|
        0 <= i < list.len() - 1 ==> separate(
            (#[trigger] list[i])->expression,
            expression_text(list[i + 1]->expression),
        )
}

/// Texts written one after the other are the first and then the others.
pub proof fn lemma_texts_from_the_left(texts: Seq<Seq<char>>)
    requires
        texts.len() > 0,
    ensures
        each_ended(texts, Seq::empty()) == texts[0] + each_ended(texts.skip(1), Seq::empty()),
    decreases texts.len(),
{
    let nothing = Seq::<char>::empty();
    let shorter = texts.drop_last();
    if texts.len() == 1 {
        assert(shorter =~= Seq::<Seq<char>>::empty());
        assert(texts.skip(1) =~= Seq::<Seq<char>>::empty());
        assert(each_ended(texts, nothing) =~= texts[0] + each_ended(texts.skip(1), nothing));
    } else {
        lemma_texts_from_the_left(shorter);
        assert(shorter.skip(1) =~= texts.skip(1).drop_last());
        assert(texts.skip(1).last() == texts.last());
        assert(shorter[0] == texts[0]);
        assert(each_ended(texts, nothing) =~= texts[0] + each_ended(texts.skip(1), nothing));
    }
}

/// The text of a program is the text of its first statement and then the
/// text of the others.
pub proof fn lemma_program_text_from_the_left(list: Seq<StatementView>)
    requires
        list.len() > 0,
    ensures
        program_text(list) == statement_text(list[0]) + program_text(list.skip(1)),
{
    let texts = statement_texts(list);
    lemma_texts_from_the_left(texts);
    assert(texts.skip(1) =~= statement_texts(list.skip(1)));
}

/// The lexer reads the text of a spaced plain program as the tokens of its
/// statements, one after the other.
pub proof fn lemma_program_tokens(list: Seq<StatementView>)
    requires
        plain_program(list),
        spaced(list),
    ensures
        tokens(program_text(list)) == program_tokens(list),
    decreases list.len(),
{
    let nothing = Seq::<char>::empty();
    if list.len() == 0 {
        assert(statement_texts(list) =~= Seq::<Seq<char>>::empty());
        lemma_tokens_unfold(nothing);
    } else {
        let e = list[0]->expression;
        let others = list.skip(1);
        let rest = program_text(others);
        assert(plain_statement(list[0]));
        assert forall|i: int| 0 <= i < others.len() implies plain_statement(
            #[trigger] others[i],
        ) by {
            assert(others[i] == list[i + 1]);
        }
        assert forall|i: int| 0 <= i < others.len() - 1 implies separate(
            (#[trigger] others[i])->expression,
            expression_text(others[i + 1]->expression),
        ) by {
            assert(others[i] == list[i + 1]);
            assert(others[i + 1] == list[i + 2]);
            assert(separate(list[i + 1]->expression, expression_text(list[i + 2]->expression)));
        }
        lemma_program_text_from_the_left(list);
        if others.len() > 0 {
            let next = others[0]->expression;
            assert(others[0] == list[1]);
            assert(plain_statement(others[0]));
            lemma_program_text_from_the_left(others);
            lemma_text_front(next);
            assert(rest[0] == expression_text(next)[0]);
            assert(separate(list[0]->expression, expression_text(list[1]->expression)));
        } else {
            assert(statement_texts(others) =~= Seq::<Seq<char>>::empty());
        }
        lemma_expression_tokens(e, rest);
        lemma_program_tokens(others);
    }
}

/// Parsing the text of a spaced plain program yields that program, and
/// reports no problem.
pub proof fn lemma_plain_text_parses(list: Seq<StatementView>)
    requires
        plain_program(list),
        spaced(list),
    ensures
        parse_spec(program_text(list)) == (list, Seq::<Diagnostic>::empty()),
{
    lemma_program_tokens(list);
    lemma_plain_program(list);
}

/// Parsing the text of a plain expression yields a program of that one
/// expression, and reports no problem.
pub proof fn lemma_plain_expression_parses(e: ExpressionView)
    requires
        plain(e),
    ensures
        parse_spec(expression_text(e)) == (lone(e), Seq::<Diagnostic>::empty()),
{
    lemma_lone_text(e);
    lemma_plain_text_parses(lone(e));
}

/// An integer literal comes back as it was written: a numeral that fits in
/// 32 bits parses, without problems, to a program of that one literal, whose
/// text is the numeral.
pub proof fn lemma_numeral_round_trip(numeral: Seq<char>)
    requires
        is_numeral(numeral),
        decimal_value(numeral) <= u32::MAX,
    ensures
        parse_spec(numeral) == (
            lone(ExpressionView::Integer { value: decimal_value(numeral) as u32 }),
            Seq::<Diagnostic>::empty(),
        ),
        program_text(parse_spec(numeral).0) == numeral,
{
    let e = ExpressionView::Integer { value: decimal_value(numeral) as u32 };
    lemma_value_then_text(numeral);
    assert(expression_text(e) == numeral);
    lemma_plain_expression_parses(e);
    lemma_lone_text(e);
}

/// Whether every statement of a program is an expression made of names,
/// literals and operators only.
pub open spec fn operators_program(list: Seq<StatementView>) -> bool {
    forall|i: int|
        0 <= i < list.len() ==> (#[trigger] list[i]) is Expression && operators_only(
            list[i]->expression,
        )
}

/// Rendering what was parsed is stable: where a text parses to statements
/// that are expressions made of names, literals and operators only, each of
/// which can be followed by the text of the next without running into it,
/// the text of that program parses to the same program again, without
/// problems, and so renders to the same text again.
pub proof fn lemma_parsed_text_is_stable(source: Seq<char>)
    requires
        operators_program(parse_spec(source).0),
        spaced(parse_spec(source).0),
    ensures
        parse_spec(program_text(parse_spec(source).0)) == (
            parse_spec(source).0,
            Seq::<Diagnostic>::empty(),
        ),
        program_text(parse_spec(program_text(parse_spec(source).0)).0) == program_text(
            parse_spec(source).0,
        ),
{
    let parsed = parse_spec(source).0;
    lemma_tokens_worded(source);
    lemma_program_named(tokens(source));
    assert forall|i: int| 0 <= i < parsed.len() implies plain_statement(#[trigger] parsed[i]) by {
        assert(well_named(parsed[i]->expression));
        lemma_plain_by_parts(parsed[i]->expression);
    }
    lemma_plain_text_parses(parsed);
}

} // verus!
