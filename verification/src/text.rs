//! Tokens written back as source text, and what lexing that text gives.

use crate::lexer::Keyword;
use crate::lexer::MINUS;
use crate::lexer::Operator;
use crate::lexer::TokenView;
use crate::lexer::Type;
use crate::lexer::all_digits;
use crate::lexer::digits_value;
use crate::lexer::is_digit;
use crate::lexer::is_item;
use crate::lexer::is_plain;
use crate::lexer::lemma_digits_value_grows;
use crate::lexer::lemma_items_have_shape;
use crate::lexer::lemma_items_of_spaced;
use crate::lexer::literal_digits;
use crate::lexer::literal_value;
use crate::lexer::spaced;
use crate::lexer::spec_classify;
use crate::lexer::spec_itemize;
use crate::lexer::spec_lex;
use crate::lexer::spec_word;
use vstd::prelude::*;
use vstd::string::StringSliceAdditionalSpecFns;
use vstd::utf8::decode_utf8_encode_utf8;
use vstd::utf8::encode_utf8;
use vstd::utf8::is_ascii_chars_encode_utf8;

verus! {

/// The decimal digits that write a natural number, without leading zeros.
pub open spec fn decimal(n: nat) -> Seq<u8>
    decreases n,
{
    if n < 10 {
        seq![(0x30 + n) as u8]
    } else {
        decimal(n / 10).push((0x30 + n % 10) as u8)
    }
}

/// The source text of a token: the word that spells it, the name of an
/// identifier in UTF-8, the decimal digits of a literal with `-` in front of
/// a negative one. An unrecognizable token has no text.
pub open spec fn token_text(token: TokenView) -> Seq<u8> {
    match token {
        TokenView::Keyword(Keyword::Fn) => "fn".spec_bytes(),
        TokenView::Keyword(Keyword::Return) => "return".spec_bytes(),
        TokenView::Keyword(Keyword::Type(Type::Isize)) => "isize".spec_bytes(),
        TokenView::Keyword(Keyword::Type(Type::Usize)) => "usize".spec_bytes(),
        TokenView::Keyword(Keyword::Type(Type::I64)) => "i64".spec_bytes(),
        TokenView::Keyword(Keyword::Type(Type::U64)) => "u64".spec_bytes(),
        TokenView::Keyword(Keyword::Let) => "let".spec_bytes(),
        TokenView::Keyword(Keyword::If) => "if".spec_bytes(),
        TokenView::Keyword(Keyword::Else) => "else".spec_bytes(),
        TokenView::Keyword(Keyword::Match) => "match".spec_bytes(),
        TokenView::Keyword(Keyword::While) => "while".spec_bytes(),
        TokenView::Keyword(Keyword::For) => "for".spec_bytes(),
        TokenView::Arrow => "->".spec_bytes(),
        TokenView::Operator(Operator::LT) => "<".spec_bytes(),
        TokenView::Operator(Operator::GT) => ">".spec_bytes(),
        TokenView::Semicolon => ";".spec_bytes(),
        TokenView::Colon => ":".spec_bytes(),
        TokenView::OpenParanthesis => "(".spec_bytes(),
        TokenView::CloseParanthesis => ")".spec_bytes(),
        TokenView::OpenBrace => "{".spec_bytes(),
        TokenView::CloseBrace => "}".spec_bytes(),
        TokenView::Operator(Operator::Equal) => "==".spec_bytes(),
        TokenView::Operator(Operator::Mul) => "*".spec_bytes(),
        TokenView::Operator(Operator::Div) => "/".spec_bytes(),
        TokenView::Operator(Operator::Add) => "+".spec_bytes(),
        TokenView::Operator(Operator::Sub) => "-".spec_bytes(),
        TokenView::Operator(Operator::LE) => "<=".spec_bytes(),
        TokenView::Operator(Operator::GE) => ">=".spec_bytes(),
        TokenView::Operator(Operator::Assign) => "=".spec_bytes(),
        TokenView::Operator(Operator::Dot) => ".".spec_bytes(),
        TokenView::Operator(Operator::LShift) => "<<".spec_bytes(),
        TokenView::Operator(Operator::RShift) => ">>".spec_bytes(),
        TokenView::Comma => ",".spec_bytes(),
        TokenView::Identifier(name) => encode_utf8(name),
        TokenView::Literal(value) => if value < 0 {
            seq![MINUS] + decimal((-value) as nat)
        } else {
            decimal(value as nat)
        },
        TokenView::Unrecognizable => Seq::empty(),
    }
}

/// The text of each token, in order.
pub open spec fn token_texts(tokens: Seq<TokenView>) -> Seq<Seq<u8>> {
    tokens.map_values(|token: TokenView| token_text(token))
}

/// The tokens written out as source text, each with one space behind it.
pub open spec fn written(tokens: Seq<TokenView>) -> Seq<u8> {
    spaced(token_texts(tokens))
}

/// The bytes of each reserved word.
pub proof fn lemma_spelling_of_keywords()
    ensures
        "fn".spec_bytes() == seq![0x66u8, 0x6eu8],
        "return".spec_bytes() == seq![0x72u8, 0x65u8, 0x74u8, 0x75u8, 0x72u8, 0x6eu8],
        "isize".spec_bytes() == seq![0x69u8, 0x73u8, 0x69u8, 0x7au8, 0x65u8],
        "usize".spec_bytes() == seq![0x75u8, 0x73u8, 0x69u8, 0x7au8, 0x65u8],
        "i64".spec_bytes() == seq![0x69u8, 0x36u8, 0x34u8],
        "u64".spec_bytes() == seq![0x75u8, 0x36u8, 0x34u8],
        "let".spec_bytes() == seq![0x6cu8, 0x65u8, 0x74u8],
        "if".spec_bytes() == seq![0x69u8, 0x66u8],
        "else".spec_bytes() == seq![0x65u8, 0x6cu8, 0x73u8, 0x65u8],
        "match".spec_bytes() == seq![0x6du8, 0x61u8, 0x74u8, 0x63u8, 0x68u8],
        "while".spec_bytes() == seq![0x77u8, 0x68u8, 0x69u8, 0x6cu8, 0x65u8],
        "for".spec_bytes() == seq![0x66u8, 0x6fu8, 0x72u8],
{
    assert("fn".spec_bytes() == seq![0x66u8, 0x6eu8]) by {
        reveal_strlit("fn");
        is_ascii_chars_encode_utf8("fn"@);
        assert("fn".spec_bytes() =~= seq![0x66u8, 0x6eu8]);
    }
    assert("return".spec_bytes() == seq![0x72u8, 0x65u8, 0x74u8, 0x75u8, 0x72u8, 0x6eu8]) by {
        reveal_strlit("return");
        is_ascii_chars_encode_utf8("return"@);
        assert("return".spec_bytes() =~= seq![0x72u8, 0x65u8, 0x74u8, 0x75u8, 0x72u8, 0x6eu8]);
    }
    assert("isize".spec_bytes() == seq![0x69u8, 0x73u8, 0x69u8, 0x7au8, 0x65u8]) by {
        reveal_strlit("isize");
        is_ascii_chars_encode_utf8("isize"@);
        assert("isize".spec_bytes() =~= seq![0x69u8, 0x73u8, 0x69u8, 0x7au8, 0x65u8]);
    }
    assert("usize".spec_bytes() == seq![0x75u8, 0x73u8, 0x69u8, 0x7au8, 0x65u8]) by {
        reveal_strlit("usize");
        is_ascii_chars_encode_utf8("usize"@);
        assert("usize".spec_bytes() =~= seq![0x75u8, 0x73u8, 0x69u8, 0x7au8, 0x65u8]);
    }
    assert("i64".spec_bytes() == seq![0x69u8, 0x36u8, 0x34u8]) by {
        reveal_strlit("i64");
        is_ascii_chars_encode_utf8("i64"@);
        assert("i64".spec_bytes() =~= seq![0x69u8, 0x36u8, 0x34u8]);
    }
    assert("u64".spec_bytes() == seq![0x75u8, 0x36u8, 0x34u8]) by {
        reveal_strlit("u64");
        is_ascii_chars_encode_utf8("u64"@);
        assert("u64".spec_bytes() =~= seq![0x75u8, 0x36u8, 0x34u8]);
    }
    assert("let".spec_bytes() == seq![0x6cu8, 0x65u8, 0x74u8]) by {
        reveal_strlit("let");
        is_ascii_chars_encode_utf8("let"@);
        assert("let".spec_bytes() =~= seq![0x6cu8, 0x65u8, 0x74u8]);
    }
    assert("if".spec_bytes() == seq![0x69u8, 0x66u8]) by {
        reveal_strlit("if");
        is_ascii_chars_encode_utf8("if"@);
        assert("if".spec_bytes() =~= seq![0x69u8, 0x66u8]);
    }
    assert("else".spec_bytes() == seq![0x65u8, 0x6cu8, 0x73u8, 0x65u8]) by {
        reveal_strlit("else");
        is_ascii_chars_encode_utf8("else"@);
        assert("else".spec_bytes() =~= seq![0x65u8, 0x6cu8, 0x73u8, 0x65u8]);
    }
    assert("match".spec_bytes() == seq![0x6du8, 0x61u8, 0x74u8, 0x63u8, 0x68u8]) by {
        reveal_strlit("match");
        is_ascii_chars_encode_utf8("match"@);
        assert("match".spec_bytes() =~= seq![0x6du8, 0x61u8, 0x74u8, 0x63u8, 0x68u8]);
    }
    assert("while".spec_bytes() == seq![0x77u8, 0x68u8, 0x69u8, 0x6cu8, 0x65u8]) by {
        reveal_strlit("while");
        is_ascii_chars_encode_utf8("while"@);
        assert("while".spec_bytes() =~= seq![0x77u8, 0x68u8, 0x69u8, 0x6cu8, 0x65u8]);
    }
    assert("for".spec_bytes() == seq![0x66u8, 0x6fu8, 0x72u8]) by {
        reveal_strlit("for");
        is_ascii_chars_encode_utf8("for"@);
        assert("for".spec_bytes() =~= seq![0x66u8, 0x6fu8, 0x72u8]);
    }
}

/// The bytes of each punctuation mark and of the arrow.
pub proof fn lemma_spelling_of_punctuation()
    ensures
        "->".spec_bytes() == seq![0x2du8, 0x3eu8],
        ";".spec_bytes() == seq![0x3bu8],
        ":".spec_bytes() == seq![0x3au8],
        "(".spec_bytes() == seq![0x28u8],
        ")".spec_bytes() == seq![0x29u8],
        "{".spec_bytes() == seq![0x7bu8],
        "}".spec_bytes() == seq![0x7du8],
        ",".spec_bytes() == seq![0x2cu8],
{
    assert("->".spec_bytes() == seq![0x2du8, 0x3eu8]) by {
        reveal_strlit("->");
        is_ascii_chars_encode_utf8("->"@);
        assert("->".spec_bytes() =~= seq![0x2du8, 0x3eu8]);
    }
    assert(";".spec_bytes() == seq![0x3bu8]) by {
        reveal_strlit(";");
        is_ascii_chars_encode_utf8(";"@);
        assert(";".spec_bytes() =~= seq![0x3bu8]);
    }
    assert(":".spec_bytes() == seq![0x3au8]) by {
        reveal_strlit(":");
        is_ascii_chars_encode_utf8(":"@);
        assert(":".spec_bytes() =~= seq![0x3au8]);
    }
    assert("(".spec_bytes() == seq![0x28u8]) by {
        reveal_strlit("(");
        is_ascii_chars_encode_utf8("("@);
        assert("(".spec_bytes() =~= seq![0x28u8]);
    }
    assert(")".spec_bytes() == seq![0x29u8]) by {
        reveal_strlit(")");
        is_ascii_chars_encode_utf8(")"@);
        assert(")".spec_bytes() =~= seq![0x29u8]);
    }
    assert("{".spec_bytes() == seq![0x7bu8]) by {
        reveal_strlit("{");
        is_ascii_chars_encode_utf8("{"@);
        assert("{".spec_bytes() =~= seq![0x7bu8]);
    }
    assert("}".spec_bytes() == seq![0x7du8]) by {
        reveal_strlit("}");
        is_ascii_chars_encode_utf8("}"@);
        assert("}".spec_bytes() =~= seq![0x7du8]);
    }
    assert(",".spec_bytes() == seq![0x2cu8]) by {
        reveal_strlit(",");
        is_ascii_chars_encode_utf8(","@);
        assert(",".spec_bytes() =~= seq![0x2cu8]);
    }
}

/// The bytes of each operator.
pub proof fn lemma_spelling_of_operators()
    ensures
        "<".spec_bytes() == seq![0x3cu8],
        ">".spec_bytes() == seq![0x3eu8],
        "==".spec_bytes() == seq![0x3du8, 0x3du8],
        "*".spec_bytes() == seq![0x2au8],
        "/".spec_bytes() == seq![0x2fu8],
        "+".spec_bytes() == seq![0x2bu8],
        "-".spec_bytes() == seq![0x2du8],
        "<=".spec_bytes() == seq![0x3cu8, 0x3du8],
        ">=".spec_bytes() == seq![0x3eu8, 0x3du8],
        "=".spec_bytes() == seq![0x3du8],
        ".".spec_bytes() == seq![0x2eu8],
        "<<".spec_bytes() == seq![0x3cu8, 0x3cu8],
        ">>".spec_bytes() == seq![0x3eu8, 0x3eu8],
{
    assert("<".spec_bytes() == seq![0x3cu8]) by {
        reveal_strlit("<");
        is_ascii_chars_encode_utf8("<"@);
        assert("<".spec_bytes() =~= seq![0x3cu8]);
    }
    assert(">".spec_bytes() == seq![0x3eu8]) by {
        reveal_strlit(">");
        is_ascii_chars_encode_utf8(">"@);
        assert(">".spec_bytes() =~= seq![0x3eu8]);
    }
    assert("==".spec_bytes() == seq![0x3du8, 0x3du8]) by {
        reveal_strlit("==");
        is_ascii_chars_encode_utf8("=="@);
        assert("==".spec_bytes() =~= seq![0x3du8, 0x3du8]);
    }
    assert("*".spec_bytes() == seq![0x2au8]) by {
        reveal_strlit("*");
        is_ascii_chars_encode_utf8("*"@);
        assert("*".spec_bytes() =~= seq![0x2au8]);
    }
    assert("/".spec_bytes() == seq![0x2fu8]) by {
        reveal_strlit("/");
        is_ascii_chars_encode_utf8("/"@);
        assert("/".spec_bytes() =~= seq![0x2fu8]);
    }
    assert("+".spec_bytes() == seq![0x2bu8]) by {
        reveal_strlit("+");
        is_ascii_chars_encode_utf8("+"@);
        assert("+".spec_bytes() =~= seq![0x2bu8]);
    }
    assert("-".spec_bytes() == seq![0x2du8]) by {
        reveal_strlit("-");
        is_ascii_chars_encode_utf8("-"@);
        assert("-".spec_bytes() =~= seq![0x2du8]);
    }
    assert("<=".spec_bytes() == seq![0x3cu8, 0x3du8]) by {
        reveal_strlit("<=");
        is_ascii_chars_encode_utf8("<="@);
        assert("<=".spec_bytes() =~= seq![0x3cu8, 0x3du8]);
    }
    assert(">=".spec_bytes() == seq![0x3eu8, 0x3du8]) by {
        reveal_strlit(">=");
        is_ascii_chars_encode_utf8(">="@);
        assert(">=".spec_bytes() =~= seq![0x3eu8, 0x3du8]);
    }
    assert("=".spec_bytes() == seq![0x3du8]) by {
        reveal_strlit("=");
        is_ascii_chars_encode_utf8("="@);
        assert("=".spec_bytes() =~= seq![0x3du8]);
    }
    assert(".".spec_bytes() == seq![0x2eu8]) by {
        reveal_strlit(".");
        is_ascii_chars_encode_utf8("."@);
        assert(".".spec_bytes() =~= seq![0x2eu8]);
    }
    assert("<<".spec_bytes() == seq![0x3cu8, 0x3cu8]) by {
        reveal_strlit("<<");
        is_ascii_chars_encode_utf8("<<"@);
        assert("<<".spec_bytes() =~= seq![0x3cu8, 0x3cu8]);
    }
    assert(">>".spec_bytes() == seq![0x3eu8, 0x3eu8]) by {
        reveal_strlit(">>");
        is_ascii_chars_encode_utf8(">>"@);
        assert(">>".spec_bytes() =~= seq![0x3eu8, 0x3eu8]);
    }
}

/// The decimal digits of a number are digits, and they write that number.
pub proof fn lemma_decimal(n: nat)
    ensures
        decimal(n).len() >= 1,
        all_digits(decimal(n)),
        digits_value(decimal(n)) == n,
    decreases n,
{
    if n < 10 {
        assert(decimal(n).drop_last() =~= Seq::<u8>::empty());
        assert(digits_value(decimal(n).drop_last()) == 0);
    } else {
        lemma_decimal(n / 10);
        assert(decimal(n).drop_last() =~= decimal(n / 10));
    }
}

/// An item that spells a token is the text of that token.
pub proof fn lemma_word_is_its_text(item: Seq<u8>)
    ensures
        spec_word(item) matches Some(token) ==> token_text(token) == item
            && token != TokenView::Unrecognizable,
{
}

/// No reserved word, operator or punctuation mark is written in digits
/// alone.
pub proof fn lemma_digits_spell_no_word(digits: Seq<u8>)
    requires
        digits.len() >= 1,
        all_digits(digits),
    ensures
        spec_word(digits) is None,
{
    lemma_spelling_of_keywords();
    lemma_spelling_of_punctuation();
    lemma_spelling_of_operators();
    assert(0x30 <= digits[0] <= 0x39);
}

/// The text of the token that an item stands for is an item again, and it
/// stands for the same token. For a word and for an identifier the text is
/// the item itself.
pub proof fn lemma_text_of_item(item: Seq<u8>)
    requires
        is_item(item),
        spec_classify(item) != TokenView::Unrecognizable,
    ensures
        is_item(token_text(spec_classify(item))),
        spec_classify(token_text(spec_classify(item))) == spec_classify(item),
{
    lemma_word_is_its_text(item);
    if spec_word(item) is None {
        match literal_value(item) {
            Some(value) => {
                // an item that is a literal has no sign: it is digits alone
                assert(literal_digits(item) == item);
                lemma_digits_value_grows(item, item.len() as int);
                assert(item.subrange(0, item.len() as int) =~= item);
                let text = decimal(value as nat);
                lemma_decimal(value as nat);
                lemma_digits_spell_no_word(text);
                assert(0x30 <= text[0] <= 0x39);
                assert(literal_digits(text) == text);
                assert forall|k: int| 0 <= k < text.len() implies is_plain(
                    #[trigger] text[k],
                ) by {
                    assert(is_digit(text[k]));
                }
            },
            None => {
                decode_utf8_encode_utf8(item);
            },
        }
    }
}

/// Lexing again what was lexed gives the same tokens: where no token of a
/// buffer is unrecognizable, the tokens written out as source text, with a
/// space behind each, lex to the same tokens.
pub proof fn lemma_relex_written(code: Seq<u8>)
    requires
        forall|k: int|
            0 <= k < spec_lex(code).len() ==> (#[trigger] spec_lex(code)[k])
                != TokenView::Unrecognizable,
    ensures
        spec_lex(written(spec_lex(code))) == spec_lex(code),
{
    let items = spec_itemize(code);
    let tokens = spec_lex(code);
    let texts = token_texts(tokens);
    lemma_items_have_shape(code, 0);
    assert forall|k: int| 0 <= k < texts.len() implies is_item(#[trigger] texts[k])
        && spec_classify(texts[k]) == tokens[k] by {
        assert(tokens[k] == spec_classify(items[k]));
        lemma_text_of_item(items[k]);
    }
    lemma_items_of_spaced(texts);
    assert(spec_lex(written(tokens)) =~= tokens);
}

} // verus!
