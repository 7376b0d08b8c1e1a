//! The tokenizer: bytes are cut into items, and each item is classified as one
//! token.

use vstd::prelude::*;
use vstd::slice::slice_subrange;
use vstd::slice::slice_to_vec;
use vstd::string::StringSliceAdditionalSpecFns;
use vstd::utf8::decode_utf8;
use vstd::utf8::valid_utf8;

verus! {

/// A primitive numeric type of the language.
#[derive(Debug, PartialEq, Eq, Clone, Copy, Structural)]
pub enum Type {
    Isize,
    Usize,
    I64,
    U64,
}

/// A reserved word.
#[derive(Debug, PartialEq, Eq, Clone, Copy, Structural)]
pub enum Keyword {
    Type(Type),
    Return,
    Fn,
    Let,
    If,
    Else,
    Match,
    While,
    For,
}

/// An operator.
#[derive(Debug, PartialEq, Eq, Clone, Copy, Structural)]
pub enum Operator {
    Equal,
    LT,
    GT,
    LE,
    GE,
    Add,
    Sub,
    Assign,
    Mul,
    Div,
    Dot,
    LShift,
    RShift,
}

/// One lexical unit.
#[derive(Debug, PartialEq, Clone)]
pub enum Token {
    OpenBrace,
    CloseBrace,
    OpenParanthesis,
    CloseParanthesis,
    Semicolon,
    Colon,
    Keyword(Keyword),
    Identifier(String),
    Literal(isize),
    Operator(Operator),
    Arrow,
    Unrecognizable,
    Comma,
}

/// The mathematical value of a [`Token`]: an identifier is its sequence of
/// characters.
pub enum TokenView {
    OpenBrace,
    CloseBrace,
    OpenParanthesis,
    CloseParanthesis,
    Semicolon,
    Colon,
    Keyword(Keyword),
    Identifier(Seq<char>),
    Literal(isize),
    Operator(Operator),
    Arrow,
    Unrecognizable,
    Comma,
}

impl View for Token {
    type V = TokenView;

    /// The same token, with an identifier taken as its characters.
    open spec fn view(&self) -> TokenView {
        match *self {
            Token::OpenBrace => TokenView::OpenBrace,
            Token::CloseBrace => TokenView::CloseBrace,
            Token::OpenParanthesis => TokenView::OpenParanthesis,
            Token::CloseParanthesis => TokenView::CloseParanthesis,
            Token::Semicolon => TokenView::Semicolon,
            Token::Colon => TokenView::Colon,
            Token::Keyword(k) => TokenView::Keyword(k),
            Token::Identifier(name) => TokenView::Identifier(name@),
            Token::Literal(v) => TokenView::Literal(v),
            Token::Operator(op) => TokenView::Operator(op),
            Token::Arrow => TokenView::Arrow,
            Token::Unrecognizable => TokenView::Unrecognizable,
            Token::Comma => TokenView::Comma,
        }
    }
}

/// The values of a sequence of tokens, in order.
pub open spec fn tokens_view(tokens: Seq<Token>) -> Seq<TokenView> {
    tokens.map_values(|t: Token| t@)
}

/// The byte sequences of a sequence of slices, in order.
pub open spec fn slices_view(items: Seq<&[u8]>) -> Seq<Seq<u8>> {
    items.map_values(|s: &[u8]| s@)
}

/// A space.
pub const SPACE: u8 = 0x20;

/// A line feed.
pub const LINE_FEED: u8 = 0x0a;

/// A carriage return.
pub const CARRIAGE_RETURN: u8 = 0x0d;

/// The byte `(`.
pub const OPEN_PARENTHESIS: u8 = 0x28;

/// The byte `)`.
pub const CLOSE_PARENTHESIS: u8 = 0x29;

/// The byte `{`.
pub const OPEN_BRACE: u8 = 0x7b;

/// The byte `}`.
pub const CLOSE_BRACE: u8 = 0x7d;

/// The byte `;`.
pub const SEMICOLON: u8 = 0x3b;

/// The byte `,`.
pub const COMMA: u8 = 0x2c;

/// The byte `.`.
pub const FULL_STOP: u8 = 0x2e;

/// The byte `=`.
pub const EQUALS: u8 = 0x3d;

/// The byte `-`.
pub const MINUS: u8 = 0x2d;

/// The byte `>`.
pub const GREATER: u8 = 0x3e;

/// The byte `<`.
pub const LESS: u8 = 0x3c;

/// The byte `:`.
pub const COLON: u8 = 0x3a;

/// The byte `+`.
pub const PLUS: u8 = 0x2b;

/// The byte `*`.
pub const ASTERISK: u8 = 0x2a;

/// The byte `/`.
pub const SLASH: u8 = 0x2f;

/// A byte that separates items and belongs to none: a space, a carriage
/// return or a line feed.
pub open spec fn is_blank(v: u8) -> bool {
    v == SPACE || v == CARRIAGE_RETURN || v == LINE_FEED
}

/// A punctuation mark, which is always an item of its own: one of `( ) { } ; , .`
pub open spec fn is_punctuation(v: u8) -> bool {
    v == OPEN_PARENTHESIS || v == CLOSE_PARENTHESIS || v == OPEN_BRACE || v == CLOSE_BRACE || v
        == SEMICOLON || v == COMMA || v == FULL_STOP
}

/// A byte that may join a neighbour to make a two-byte item: one of
/// `= - > < : + * /`
pub open spec fn is_assemblable(v: u8) -> bool {
    v == EQUALS || v == MINUS || v == GREATER || v == LESS || v == COLON || v == PLUS || v
        == ASTERISK || v == SLASH
}

/// Any other byte: it extends the item it stands in.
pub open spec fn is_plain(v: u8) -> bool {
    !is_blank(v) && !is_punctuation(v) && !is_assemblable(v)
}

/// An ASCII decimal digit.
pub open spec fn is_digit(v: u8) -> bool {
    0x30 <= v <= 0x39
}

/// An ASCII letter or digit.
pub open spec fn is_alphanumeric(v: u8) -> bool {
    is_digit(v) || 0x41 <= v <= 0x5a || 0x61 <= v <= 0x7a
}

/// Whether `v` is a blank.
pub fn blank_u8(v: u8) -> (r: bool)
    ensures
        r == is_blank(v),
{
    v == SPACE || v == CARRIAGE_RETURN || v == LINE_FEED
}

/// Whether `v` is a punctuation mark.
pub fn punctuation_u8(v: u8) -> (r: bool)
    ensures
        r == is_punctuation(v),
{
    v == OPEN_PARENTHESIS || v == CLOSE_PARENTHESIS || v == OPEN_BRACE || v == CLOSE_BRACE || v
        == SEMICOLON || v == COMMA || v == FULL_STOP
}

/// Whether `v` is an assemblable byte.
pub fn assemblable_u8(v: u8) -> (r: bool)
    ensures
        r == is_assemblable(v),
{
    v == EQUALS || v == MINUS || v == GREATER || v == LESS || v == COLON || v == PLUS || v
        == ASTERISK || v == SLASH
}

/// Whether `v` is an ASCII letter or digit.
pub fn alphanumeric_u8(v: u8) -> (r: bool)
    ensures
        r == is_alphanumeric(v),
{
    (0x30 <= v && v <= 0x39) || (0x41 <= v && v <= 0x5a) || (0x61 <= v && v <= 0x7a)
}

/// How many plain bytes stand in a row from position `i` on.
pub open spec fn plain_run(code: Seq<u8>, i: int) -> nat
    decreases code.len() - i,
{
    if 0 <= i < code.len() && is_plain(code[i]) {
        1 + plain_run(code, i + 1)
    } else {
        0
    }
}

/// The length of the item that starts at position `i`, where `code[i]` is not
/// blank.
///
/// A punctuation mark stands alone. An assemblable byte takes the next byte
/// with it when that one is assemblable too. A run of plain bytes goes as far
/// as it can; a run of one byte that is neither a letter nor a digit takes an
/// assemblable byte that follows it directly.
pub open spec fn item_len(code: Seq<u8>, i: int) -> nat
    recommends
        0 <= i < code.len(),
        !is_blank(code[i]),
{
    if is_punctuation(code[i]) {
        1
    } else if is_assemblable(code[i]) {
        if i + 1 < code.len() && is_assemblable(code[i + 1]) {
            2
        } else {
            1
        }
    } else {
        let n = plain_run(code, i);
        if n == 1 && !is_alphanumeric(code[i]) && i + 1 < code.len() && is_assemblable(
            code[i + 1],
        ) {
            2
        } else {
            n
        }
    }
}

/// A run of plain bytes ends inside the buffer.
pub proof fn lemma_plain_run_bound(code: Seq<u8>, i: int)
    requires
        0 <= i <= code.len(),
    ensures
        i + plain_run(code, i) <= code.len(),
        forall|k: int| i <= k < i + plain_run(code, i) ==> is_plain(#[trigger] code[k]),
        i + plain_run(code, i) < code.len() ==> !is_plain(code[i + plain_run(code, i)]),
    decreases code.len() - i,
{
    if i < code.len() && is_plain(code[i]) {
        lemma_plain_run_bound(code, i + 1);
    }
}

/// Plain bytes in front of a position add to the run that starts there.
pub proof fn lemma_plain_run_split(code: Seq<u8>, st: int, i: int)
    requires
        0 <= st <= i <= code.len(),
        forall|k: int| st <= k < i ==> is_plain(#[trigger] code[k]),
    ensures
        plain_run(code, st) == (i - st) + plain_run(code, i),
    decreases i - st,
{
    if st < i {
        lemma_plain_run_split(code, st + 1, i);
    }
}

/// An item is not empty and ends inside the buffer.
pub proof fn lemma_item_len_bound(code: Seq<u8>, i: int)
    requires
        0 <= i < code.len(),
        !is_blank(code[i]),
    ensures
        1 <= item_len(code, i),
        i + item_len(code, i) <= code.len(),
{
    lemma_plain_run_bound(code, i);
}

/// The items of `code` from position `i` on, where no item is under way at
/// `i`.
pub open spec fn items_from(code: Seq<u8>, i: int) -> Seq<Seq<u8>>
    decreases code.len() - i,
{
    if i < 0 || i >= code.len() {
        Seq::empty()
    } else if is_blank(code[i]) {
        items_from(code, i + 1)
    } else {
        let n = item_len(code, i);
        proof {
            lemma_item_len_bound(code, i);
        }
        seq![code.subrange(i, i + n)] + items_from(code, i + n)
    }
}

/// The items of a buffer, in source order.
pub open spec fn spec_itemize(code: Seq<u8>) -> Seq<Seq<u8>> {
    items_from(code, 0)
}

/// A run of plain bytes that is under way from `st` and ends before `i` is
/// one item, unless it is a single byte that joins the assemblable byte at `i`.
pub proof fn lemma_items_after_run(code: Seq<u8>, st: int, i: int)
    requires
        0 <= st < i <= code.len(),
        forall|k: int| st <= k < i ==> is_plain(#[trigger] code[k]),
        i < code.len() ==> !is_plain(code[i]),
        !(i == st + 1 && !is_alphanumeric(code[st]) && i < code.len() && is_assemblable(code[i])),
    ensures
        items_from(code, st) == seq![code.subrange(st, i)] + items_from(code, i),
{
    lemma_plain_run_split(code, st, i);
    assert(plain_run(code, i) == 0);
    assert(is_plain(code[st]));
    assert(item_len(code, st) == i - st);
}

/// A single plain byte that is neither a letter nor a digit joins the
/// assemblable byte behind it.
pub proof fn lemma_items_after_joined_pair(code: Seq<u8>, st: int)
    requires
        0 <= st,
        st + 1 < code.len(),
        is_plain(code[st]),
        !is_alphanumeric(code[st]),
        is_assemblable(code[st + 1]),
    ensures
        items_from(code, st) == seq![code.subrange(st, st + 2)] + items_from(code, st + 2),
{
    assert(plain_run(code, st + 1) == 0);
    assert(plain_run(code, st) == 1);
    assert(item_len(code, st) == 2);
}

/// Cuts a buffer into its items.
///
/// Blanks end the item under way and are dropped. A punctuation mark ends it
/// too and is an item of its own. An assemblable byte joins a pending item of
/// one byte that is neither a letter nor a digit; otherwise it ends the item
/// under way, and takes the next byte with it when that one is assemblable.
/// Any other byte extends the item under way. Nothing is read past the end of
/// the buffer, and an item under way at the end is kept.
pub fn itemize(code: &[u8]) -> (items: Vec<&[u8]>)
    ensures
        slices_view(items@) == spec_itemize(code@),
{
    let mut items: Vec<&[u8]> = Vec::new();
    let mut i: usize = 0;
    let mut st: usize = 0;
    let mut empty: bool = true;
    assert(slices_view(items@) + items_from(code@, 0) =~= spec_itemize(code@));
    while i < code.len()
        invariant
            i <= code.len(),
            st <= i,
            empty ==> st == i,
            !empty ==> st < i,
            forall|k: int| st <= k < i ==> is_plain(#[trigger] code@[k]),
            slices_view(items@) + items_from(code@, st as int) == spec_itemize(code@),
        decreases code.len() - i,
    {
        let v: u8 = code[i];
        if !blank_u8(v) && !punctuation_u8(v) && !assemblable_u8(v) {
            // a plain byte extends the item under way, or starts one
            empty = false;
            i += 1;
        } else if !empty && assemblable_u8(v) && st + 1 == i && !alphanumeric_u8(code[st]) {
            let ghost before = slices_view(items@);
            proof {
                lemma_items_after_joined_pair(code@, st as int);
            }
            items.push(slice_subrange(code, st, st + 2));
            assert(slices_view(items@) =~= before + seq![code@.subrange(st as int, st + 2)]);
            empty = true;
            i += 1;
            st = i;
            assert(slices_view(items@) + items_from(code@, st as int) =~= spec_itemize(code@));
        } else {
            if !empty {
                let ghost before = slices_view(items@);
                proof {
                    lemma_items_after_run(code@, st as int, i as int);
                }
                items.push(slice_subrange(code, st, i));
                assert(slices_view(items@) =~= before + seq![code@.subrange(st as int, i as int)]);
                empty = true;
                assert(slices_view(items@) + items_from(code@, i as int) =~= spec_itemize(code@));
            }
            let ghost middle = slices_view(items@);
            let mut taken: usize = 1;
            if assemblable_u8(v) && i + 1 < code.len() && assemblable_u8(code[i + 1]) {
                taken = 2;
            }
            if !blank_u8(v) {
                assert(item_len(code@, i as int) == taken);
                items.push(slice_subrange(code, i, i + taken));
                assert(slices_view(items@) =~= middle + seq![code@.subrange(i as int, i + taken)]);
            }
            i += taken;
            st = i;
            assert(slices_view(items@) + items_from(code@, st as int) =~= spec_itemize(code@));
        }
    }
    if !empty {
        let ghost before = slices_view(items@);
        proof {
            lemma_items_after_run(code@, st as int, i as int);
        }
        items.push(slice_subrange(code, st, i));
        assert(slices_view(items@) =~= before + seq![code@.subrange(st as int, i as int)]);
    }
    assert(slices_view(items@) =~= spec_itemize(code@));
    items
}

/// The token that a reserved word, an operator or a punctuation mark spells,
/// if `item` is exactly one of them.
pub open spec fn spec_word(item: Seq<u8>) -> Option<TokenView> {
    if item == "fn".spec_bytes() {
        Some(TokenView::Keyword(Keyword::Fn))
    } else if item == "return".spec_bytes() {
        Some(TokenView::Keyword(Keyword::Return))
    } else if item == "isize".spec_bytes() {
        Some(TokenView::Keyword(Keyword::Type(Type::Isize)))
    } else if item == "usize".spec_bytes() {
        Some(TokenView::Keyword(Keyword::Type(Type::Usize)))
    } else if item == "i64".spec_bytes() {
        Some(TokenView::Keyword(Keyword::Type(Type::I64)))
    } else if item == "u64".spec_bytes() {
        Some(TokenView::Keyword(Keyword::Type(Type::U64)))
    } else if item == "let".spec_bytes() {
        Some(TokenView::Keyword(Keyword::Let))
    } else if item == "if".spec_bytes() {
        Some(TokenView::Keyword(Keyword::If))
    } else if item == "else".spec_bytes() {
        Some(TokenView::Keyword(Keyword::Else))
    } else if item == "match".spec_bytes() {
        Some(TokenView::Keyword(Keyword::Match))
    } else if item == "while".spec_bytes() {
        Some(TokenView::Keyword(Keyword::While))
    } else if item == "for".spec_bytes() {
        Some(TokenView::Keyword(Keyword::For))
    } else if item == "->".spec_bytes() {
        Some(TokenView::Arrow)
    } else if item == "<".spec_bytes() {
        Some(TokenView::Operator(Operator::LT))
    } else if item == ">".spec_bytes() {
        Some(TokenView::Operator(Operator::GT))
    } else if item == ";".spec_bytes() {
        Some(TokenView::Semicolon)
    } else if item == ":".spec_bytes() {
        Some(TokenView::Colon)
    } else if item == "(".spec_bytes() {
        Some(TokenView::OpenParanthesis)
    } else if item == ")".spec_bytes() {
        Some(TokenView::CloseParanthesis)
    } else if item == "{".spec_bytes() {
        Some(TokenView::OpenBrace)
    } else if item == "}".spec_bytes() {
        Some(TokenView::CloseBrace)
    } else if item == "==".spec_bytes() {
        Some(TokenView::Operator(Operator::Equal))
    } else if item == "*".spec_bytes() {
        Some(TokenView::Operator(Operator::Mul))
    } else if item == "/".spec_bytes() {
        Some(TokenView::Operator(Operator::Div))
    } else if item == "+".spec_bytes() {
        Some(TokenView::Operator(Operator::Add))
    } else if item == "-".spec_bytes() {
        Some(TokenView::Operator(Operator::Sub))
    } else if item == "<=".spec_bytes() {
        Some(TokenView::Operator(Operator::LE))
    } else if item == ">=".spec_bytes() {
        Some(TokenView::Operator(Operator::GE))
    } else if item == "=".spec_bytes() {
        Some(TokenView::Operator(Operator::Assign))
    } else if item == ".".spec_bytes() {
        Some(TokenView::Operator(Operator::Dot))
    } else if item == "<<".spec_bytes() {
        Some(TokenView::Operator(Operator::LShift))
    } else if item == ">>".spec_bytes() {
        Some(TokenView::Operator(Operator::RShift))
    } else if item == ",".spec_bytes() {
        Some(TokenView::Comma)
    } else {
        None
    }
}

/// The number that a sequence of decimal digits writes.
pub open spec fn digits_value(digits: Seq<u8>) -> int
    decreases digits.len(),
{
    if digits.len() == 0 {
        0
    } else {
        digits_value(digits.drop_last()) * 10 + (digits.last() - 0x30)
    }
}

/// Every byte is a decimal digit.
pub open spec fn all_digits(digits: Seq<u8>) -> bool {
    forall|k: int| 0 <= k < digits.len() ==> is_digit(#[trigger] digits[k])
}

/// The part of an integer literal behind its sign, if it has one.
pub open spec fn literal_digits(item: Seq<u8>) -> Seq<u8> {
    if item.len() > 0 && (item[0] == MINUS || item[0] == PLUS) {
        item.subrange(1, item.len() as int)
    } else {
        item
    }
}

/// The number that an integer literal writes, whether or not it fits the
/// machine.
pub open spec fn literal_number(item: Seq<u8>) -> int {
    if item.len() > 0 && item[0] == MINUS {
        -digits_value(literal_digits(item))
    } else {
        digits_value(literal_digits(item))
    }
}

/// The value of `item` read as a signed integer literal: an optional `+` or
/// `-`, then one or more decimal digits, writing a number that an `isize`
/// holds. Anything else is no literal.
pub open spec fn literal_value(item: Seq<u8>) -> Option<isize> {
    if literal_digits(item).len() > 0 && all_digits(literal_digits(item)) && isize::MIN
        <= literal_number(item) <= isize::MAX {
        Some(literal_number(item) as isize)
    } else {
        None
    }
}

/// The token that one item stands for.
///
/// An item that spells a reserved word, an operator or a punctuation mark is
/// that token. Otherwise an integer literal is a `Literal`. Otherwise an item
/// that begins with a punctuation mark or an assemblable byte, is empty, or is
/// not UTF-8 is `Unrecognizable`. Every other item is an `Identifier`.
pub open spec fn spec_classify(item: Seq<u8>) -> TokenView {
    match spec_word(item) {
        Some(token) => token,
        None => match literal_value(item) {
            Some(value) => TokenView::Literal(value),
            None => if item.len() == 0 || is_punctuation(item[0]) || is_assemblable(item[0])
                || !valid_utf8(item) {
                TokenView::Unrecognizable
            } else {
                TokenView::Identifier(decode_utf8(item))
            },
        },
    }
}

/// The tokens of a buffer: one for each of its items, in source order.
pub open spec fn spec_lex(code: Seq<u8>) -> Seq<TokenView> {
    spec_itemize(code).map_values(|item: Seq<u8>| spec_classify(item))
}

/// Whether two byte slices hold the same bytes.
pub fn same_bytes(left: &[u8], right: &[u8]) -> (r: bool)
    ensures
        r == (left@ == right@),
{
    if left.len() != right.len() {
        return false;
    }
    let mut i: usize = 0;
    while i < left.len()
        invariant
            i <= left.len(),
            left.len() == right.len(),
            forall|k: int| 0 <= k < i ==> left@[k] == right@[k],
        decreases left.len() - i,
    {
        if left[i] != right[i] {
            return false;
        }
        i += 1;
    }
    assert(left@ =~= right@);
    true
}

/// Whether `item` is the text `word`, byte for byte.
pub fn spells(item: &[u8], word: &str) -> (r: bool)
    ensures
        r == (item@ == word.spec_bytes()),
{
    same_bytes(item, word.as_bytes())
}

/// Looks `item` up among the reserved words, operators and punctuation marks.
pub fn word(item: &[u8]) -> (r: Option<Token>)
    ensures
        r is Some == spec_word(item@) is Some,
        r matches Some(token) ==> Some(token@) == spec_word(item@),
{
    if spells(item, "fn") {
        Some(Token::Keyword(Keyword::Fn))
    } else if spells(item, "return") {
        Some(Token::Keyword(Keyword::Return))
    } else if spells(item, "isize") {
        Some(Token::Keyword(Keyword::Type(Type::Isize)))
    } else if spells(item, "usize") {
        Some(Token::Keyword(Keyword::Type(Type::Usize)))
    } else if spells(item, "i64") {
        Some(Token::Keyword(Keyword::Type(Type::I64)))
    } else if spells(item, "u64") {
        Some(Token::Keyword(Keyword::Type(Type::U64)))
    } else if spells(item, "let") {
        Some(Token::Keyword(Keyword::Let))
    } else if spells(item, "if") {
        Some(Token::Keyword(Keyword::If))
    } else if spells(item, "else") {
        Some(Token::Keyword(Keyword::Else))
    } else if spells(item, "match") {
        Some(Token::Keyword(Keyword::Match))
    } else if spells(item, "while") {
        Some(Token::Keyword(Keyword::While))
    } else if spells(item, "for") {
        Some(Token::Keyword(Keyword::For))
    } else if spells(item, "->") {
        Some(Token::Arrow)
    } else if spells(item, "<") {
        Some(Token::Operator(Operator::LT))
    } else if spells(item, ">") {
        Some(Token::Operator(Operator::GT))
    } else if spells(item, ";") {
        Some(Token::Semicolon)
    } else if spells(item, ":") {
        Some(Token::Colon)
    } else if spells(item, "(") {
        Some(Token::OpenParanthesis)
    } else if spells(item, ")") {
        Some(Token::CloseParanthesis)
    } else if spells(item, "{") {
        Some(Token::OpenBrace)
    } else if spells(item, "}") {
        Some(Token::CloseBrace)
    } else if spells(item, "==") {
        Some(Token::Operator(Operator::Equal))
    } else if spells(item, "*") {
        Some(Token::Operator(Operator::Mul))
    } else if spells(item, "/") {
        Some(Token::Operator(Operator::Div))
    } else if spells(item, "+") {
        Some(Token::Operator(Operator::Add))
    } else if spells(item, "-") {
        Some(Token::Operator(Operator::Sub))
    } else if spells(item, "<=") {
        Some(Token::Operator(Operator::LE))
    } else if spells(item, ">=") {
        Some(Token::Operator(Operator::GE))
    } else if spells(item, "=") {
        Some(Token::Operator(Operator::Assign))
    } else if spells(item, ".") {
        Some(Token::Operator(Operator::Dot))
    } else if spells(item, "<<") {
        Some(Token::Operator(Operator::LShift))
    } else if spells(item, ">>") {
        Some(Token::Operator(Operator::RShift))
    } else if spells(item, ",") {
        Some(Token::Comma)
    } else {
        None
    }
}

/// A longer sequence of digits writes a number that is no smaller.
pub proof fn lemma_digits_value_grows(digits: Seq<u8>, k: int)
    requires
        all_digits(digits),
        0 <= k <= digits.len(),
    ensures
        0 <= digits_value(digits.subrange(0, k)) <= digits_value(digits),
    decreases digits.len(),
{
    if digits.len() == 0 {
        assert(digits.subrange(0, k) =~= digits);
    } else if k == digits.len() {
        assert(digits.subrange(0, k) =~= digits);
        lemma_digits_value_grows(digits.drop_last(), k - 1);
        assert(digits.drop_last().subrange(0, k - 1) =~= digits.drop_last());
        assert(is_digit(digits[digits.len() - 1]));
    } else {
        lemma_digits_value_grows(digits.drop_last(), k);
        assert(digits.drop_last().subrange(0, k) =~= digits.subrange(0, k));
        lemma_digits_value_grows(digits.drop_last(), digits.len() - 1);
        assert(digits.drop_last().subrange(0, digits.len() - 1) =~= digits.drop_last());
        assert(is_digit(digits[digits.len() - 1]));
    }
}

/// Reads `item` as a signed integer literal.
pub fn parse_literal(item: &[u8]) -> (r: Option<isize>)
    ensures
        r == literal_value(item@),
{
    let n: usize = item.len();
    if n == 0 {
        return None;
    }
    let negative: bool = item[0] == MINUS;
    let first: usize = if item[0] == MINUS || item[0] == PLUS {
        1
    } else {
        0
    };
    if first == n {
        return None;
    }
    let ghost digits = literal_digits(item@);
    assert(digits =~= item@.subrange(first as int, n as int));
    let mut acc: isize = 0;
    let mut i: usize = first;
    assert(digits.subrange(0, 0) =~= Seq::<u8>::empty());
    while i < n
        invariant
            first <= i <= n,
            n == item@.len(),
            0 < n,
            negative == (item@[0] == MINUS),
            digits == literal_digits(item@),
            digits == item@.subrange(first as int, n as int),
            forall|k: int| 0 <= k < i - first ==> is_digit(#[trigger] digits[k]),
            negative ==> acc == -digits_value(digits.subrange(0, i - first)),
            !negative ==> acc == digits_value(digits.subrange(0, i - first)),
        decreases n - i,
    {
        let v: u8 = item[i];
        if v < 0x30 || v > 0x39 {
            assert(!is_digit(digits[i - first]));
            return None;
        }
        let d: isize = (v - 0x30) as isize;
        let ghost shorter = digits.subrange(0, i - first);
        let ghost longer = digits.subrange(0, i - first + 1);
        proof {
            assert(longer.drop_last() =~= shorter);
            assert(longer.last() == v);
            assert(digits_value(longer) == digits_value(shorter) * 10 + (v - 0x30));
        }
        let next: Option<isize> = match acc.checked_mul(10) {
            Some(tenfold) => if negative {
                tenfold.checked_sub(d)
            } else {
                tenfold.checked_add(d)
            },
            None => None,
        };
        match next {
            Some(value) => {
                acc = value;
            },
            None => {
                // the digits read so far already write a number out of range;
                // if all the rest are digits, the whole is further out still
                proof {
                    if all_digits(digits) {
                        lemma_digits_value_grows(digits, i - first + 1);
                        lemma_digits_value_grows(longer, i - first);
                        assert(longer.subrange(0, i - first) =~= shorter);
                    }
                }
                return None;
            },
        }
        i += 1;
    }
    assert(digits.subrange(0, n - first) =~= digits);
    Some(acc)
}

/// `String::from_utf8` of the standard library: it succeeds exactly on valid
/// UTF-8, and the string then holds the characters that the bytes encode.
#[verifier::external_body]
fn string_from_utf8(bytes: Vec<u8>) -> (r: Option<String>)
    ensures
        r is Some == valid_utf8(bytes@),
        r matches Some(text) ==> text@ == decode_utf8(bytes@),
{
    match String::from_utf8(bytes) {
        Ok(text) => Some(text),
        Err(_) => None,
    }
}

/// Classifies one item as a token.
pub fn classify(item: &[u8]) -> (token: Token)
    ensures
        token@ == spec_classify(item@),
{
    if let Some(token) = word(item) {
        return token;
    }
    if let Some(value) = parse_literal(item) {
        return Token::Literal(value);
    }
    if item.len() == 0 || punctuation_u8(item[0]) || assemblable_u8(item[0]) {
        return Token::Unrecognizable;
    }
    match string_from_utf8(slice_to_vec(item)) {
        Some(name) => Token::Identifier(name),
        None => Token::Unrecognizable,
    }
}

/// Turns source bytes into tokens, in source order. It never fails: an item
/// that is no token of the language becomes `Unrecognizable`.
pub fn lex(code: &[u8]) -> (tokens: Vec<Token>)
    ensures
        tokens_view(tokens@) == spec_lex(code@),
{
    let mut tokens: Vec<Token> = Vec::new();
    let items: Vec<&[u8]> = itemize(code);
    let mut k: usize = 0;
    while k < items.len()
        invariant
            k <= items.len(),
            slices_view(items@) == spec_itemize(code@),
            tokens@.len() == k,
            forall|j: int| 0 <= j < k ==> (#[trigger] tokens@[j])@ == spec_classify(items@[j]@),
        decreases items.len() - k,
    {
        tokens.push(classify(items[k]));
        k += 1;
    }
    assert(tokens_view(tokens@) =~= spec_lex(code@)) by {
        assert forall|j: int| 0 <= j < k implies tokens_view(tokens@)[j] == spec_lex(code@)[j] by {
            assert(slices_view(items@)[j] == items@[j]@);
        }
    }
    tokens
}

/// The bytes of a buffer from position `i` on, with the blanks taken out.
pub open spec fn without_blanks_from(code: Seq<u8>, i: int) -> Seq<u8>
    decreases code.len() - i,
{
    if !(0 <= i < code.len()) {
        Seq::empty()
    } else if is_blank(code[i]) {
        without_blanks_from(code, i + 1)
    } else {
        seq![code[i]] + without_blanks_from(code, i + 1)
    }
}

/// The bytes of a buffer with the blanks taken out.
pub open spec fn without_blanks(code: Seq<u8>) -> Seq<u8> {
    without_blanks_from(code, 0)
}

/// A stretch without blanks stands as it is in the buffer without blanks.
pub proof fn lemma_stretch_without_blanks(code: Seq<u8>, i: int, j: int)
    requires
        0 <= i <= j <= code.len(),
        forall|k: int| i <= k < j ==> !is_blank(#[trigger] code[k]),
    ensures
        without_blanks_from(code, i) == code.subrange(i, j) + without_blanks_from(code, j),
    decreases j - i,
{
    if i < j {
        lemma_stretch_without_blanks(code, i + 1, j);
        assert(seq![code[i]] + (code.subrange(i + 1, j) + without_blanks_from(code, j))
            =~= code.subrange(i, j) + without_blanks_from(code, j));
    } else {
        assert(code.subrange(i, j) + without_blanks_from(code, j) =~= without_blanks_from(
            code,
            j,
        ));
    }
}

/// No item holds a blank.
pub proof fn lemma_item_has_no_blank(code: Seq<u8>, i: int)
    requires
        0 <= i < code.len(),
        !is_blank(code[i]),
    ensures
        forall|k: int| i <= k < i + item_len(code, i) ==> !is_blank(#[trigger] code[k]),
{
    lemma_plain_run_bound(code, i);
}

/// Itemization loses nothing but blanks: the items from position `i` on,
/// put one behind the other, are the bytes from `i` on without the blanks.
pub proof fn lemma_items_from_keep_bytes(code: Seq<u8>, i: int)
    requires
        0 <= i,
    ensures
        items_from(code, i).flatten() == without_blanks_from(code, i),
    decreases code.len() - i,
{
    if i >= code.len() {
    } else if is_blank(code[i]) {
        lemma_items_from_keep_bytes(code, i + 1);
    } else {
        let n = item_len(code, i) as int;
        let item = code.subrange(i, i + n);
        let rest = items_from(code, i + n);
        lemma_item_len_bound(code, i);
        lemma_item_has_no_blank(code, i);
        lemma_items_from_keep_bytes(code, i + n);
        lemma_stretch_without_blanks(code, i, i + n);
        assert((seq![item] + rest).first() == item);
        assert((seq![item] + rest).drop_first() =~= rest);
    }
}

/// Itemization is lossless except for blanks: the items of a buffer, put one
/// behind the other, are the buffer without its blanks; and lexing makes
/// exactly one token of each item.
pub proof fn lemma_itemize_lossless(code: Seq<u8>)
    ensures
        spec_itemize(code).flatten() == without_blanks(code),
        spec_lex(code).len() == spec_itemize(code).len(),
        forall|k: int|
            0 <= k < spec_itemize(code).len() ==> (#[trigger] spec_lex(code)[k]) == spec_classify(
                spec_itemize(code)[k],
            ),
{
    lemma_items_from_keep_bytes(code, 0);
}

/// The items written out again, each with one space behind it.
pub open spec fn spaced(items: Seq<Seq<u8>>) -> Seq<u8>
    decreases items.len(),
{
    if items.len() == 0 {
        Seq::empty()
    } else {
        items.first() + seq![SPACE] + spaced(items.drop_first())
    }
}

/// The shapes that an item can have: a punctuation mark; one or two
/// assemblable bytes; a plain byte that is neither a letter nor a digit with
/// an assemblable byte behind it; or a run of plain bytes.
pub open spec fn is_item(item: Seq<u8>) -> bool {
    ||| item.len() == 1 && is_punctuation(item[0])
    ||| item.len() == 1 && is_assemblable(item[0])
    ||| item.len() == 2 && is_assemblable(item[0]) && is_assemblable(item[1])
    ||| item.len() == 2 && is_plain(item[0]) && !is_alphanumeric(item[0]) && is_assemblable(
        item[1],
    )
    ||| item.len() >= 1 && forall|k: int| 0 <= k < item.len() ==> is_plain(#[trigger] item[k])
}

/// A run of plain bytes is the same whatever stands in front of it.
pub proof fn lemma_plain_run_shift(front: Seq<u8>, code: Seq<u8>, i: int)
    requires
        0 <= i,
    ensures
        plain_run(front + code, front.len() + i) == plain_run(code, i),
    decreases code.len() - i,
{
    if i < code.len() && is_plain(code[i]) {
        lemma_plain_run_shift(front, code, i + 1);
    }
}

/// The items from a position on are the same whatever stands in front of
/// it.
pub proof fn lemma_items_shift(front: Seq<u8>, code: Seq<u8>, i: int)
    requires
        0 <= i,
    ensures
        items_from(front + code, front.len() + i) == items_from(code, i),
    decreases code.len() - i,
{
    let whole = front + code;
    let at = front.len() + i;
    if i < code.len() {
        if is_blank(code[i]) {
            lemma_items_shift(front, code, i + 1);
        } else {
            lemma_plain_run_shift(front, code, i);
            lemma_item_len_bound(code, i);
            let n = item_len(code, i) as int;
            assert(item_len(whole, at) == n);
            lemma_items_shift(front, code, i + n);
            assert(whole.subrange(at, at + n) =~= code.subrange(i, i + n));
        }
    }
}

/// An item with a space behind it is itemized as itself, and what follows
/// the space is itemized as if it stood alone.
pub proof fn lemma_items_of_spaced_item(item: Seq<u8>, tail: Seq<u8>)
    requires
        is_item(item),
    ensures
        spec_itemize(item + seq![SPACE] + tail) == seq![item] + spec_itemize(tail),
{
    let front = item + seq![SPACE];
    let code = front + tail;
    let n = item.len() as int;
    assert(code[n] == SPACE);
    assert forall|k: int| 0 <= k < n implies code[k] == item[k] by {}
    if is_plain(item[0]) && !(n == 2 && is_assemblable(item[1])) {
        assert forall|k: int| 0 <= k < n implies is_plain(#[trigger] code[k]) by {
            assert(code[k] == item[k]);
        }
        lemma_plain_run_split(code, 0, n);
        assert(plain_run(code, n) == 0);
    } else if is_plain(item[0]) {
        assert(plain_run(code, 1) == 0);
        assert(plain_run(code, 0) == 1);
    }
    assert(item_len(code, 0) == n);
    assert(code.subrange(0, n) =~= item);
    assert(items_from(code, n) == items_from(code, n + 1));
    lemma_items_shift(front, tail, 0);
}

/// Items that are written out with spaces between them are itemized as
/// themselves.
pub proof fn lemma_items_of_spaced(items: Seq<Seq<u8>>)
    requires
        forall|k: int| 0 <= k < items.len() ==> is_item(#[trigger] items[k]),
    ensures
        spec_itemize(spaced(items)) == items,
    decreases items.len(),
{
    if items.len() > 0 {
        let rest = items.drop_first();
        assert forall|k: int| 0 <= k < rest.len() implies is_item(#[trigger] rest[k]) by {
            assert(rest[k] == items[k + 1]);
        }
        lemma_items_of_spaced(rest);
        lemma_items_of_spaced_item(items.first(), spaced(rest));
        assert(seq![items.first()] + rest =~= items);
    }
}

/// Every item that itemization makes has one of the shapes of an item.
pub proof fn lemma_items_have_shape(code: Seq<u8>, i: int)
    requires
        0 <= i,
    ensures
        forall|k: int|
            0 <= k < items_from(code, i).len() ==> is_item(#[trigger] items_from(code, i)[k]),
    decreases code.len() - i,
{
    if i < code.len() {
        if is_blank(code[i]) {
            lemma_items_have_shape(code, i + 1);
            assert(items_from(code, i) == items_from(code, i + 1));
        } else {
            lemma_item_len_bound(code, i);
            lemma_plain_run_bound(code, i);
            let n = item_len(code, i) as int;
            let item = code.subrange(i, i + n);
            let rest = items_from(code, i + n);
            lemma_items_have_shape(code, i + n);
            assert(items_from(code, i) == seq![item] + rest);
            assert(is_item(item)) by {
                if is_plain(code[i]) && n == plain_run(code, i) {
                    assert forall|k: int| 0 <= k < item.len() implies is_plain(
                        #[trigger] item[k],
                    ) by {
                        assert(item[k] == code[i + k]);
                    }
                } else {
                    assert(item[0] == code[i]);
                    if n == 2 {
                        assert(item[1] == code[i + 1]);
                    }
                }
            }
            assert forall|k: int| 0 <= k < items_from(code, i).len() implies is_item(
                #[trigger] items_from(code, i)[k],
            ) by {
                if k > 0 {
                    assert(items_from(code, i)[k] == rest[k - 1]);
                } else {
                    assert(items_from(code, i)[k] == item);
                }
            }
        }
    }
}

/// Lexing again what was lexed changes nothing: when the items of a buffer
/// are written out with one space behind each, that text has the same items
/// and so the same tokens as the buffer.
pub proof fn lemma_relex_spaced(code: Seq<u8>)
    ensures
        spec_itemize(spaced(spec_itemize(code))) == spec_itemize(code),
        spec_lex(spaced(spec_itemize(code))) == spec_lex(code),
{
    lemma_items_have_shape(code, 0);
    lemma_items_of_spaced(spec_itemize(code));
}

} // verus!
