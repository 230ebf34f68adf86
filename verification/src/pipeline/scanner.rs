//! The scanner: source text to tokens.

pub mod state;

use super::source::Source;
use super::tokens::{Token, TokenInfo, TokenInfoView, TokenMeta, TokenView};
use state::{popped, position_after, newline_count, tail_len, Position, ScanState, ScanStateView};
use vstd::prelude::*;
use vstd::string::{StringExecFns, StringSliceAdditionalSpecFns};
use vstd::utf8::{encode_scalar, encode_utf8};

verus! {

/// A decimal digit.
pub open spec fn digit(ch: char) -> bool {
    '0' <= ch <= '9'
}

/// A letter of the English alphabet, small or capital.
pub open spec fn letter(ch: char) -> bool {
    'a' <= ch <= 'z' || 'A' <= ch <= 'Z'
}

/// What a name may start with: a letter or an underscore.
pub open spec fn identifier_first(ch: char) -> bool {
    ch == '_' || letter(ch)
}

/// What a name may go on with: a letter or a digit.
pub open spec fn identifier_part(ch: char) -> bool {
    letter(ch) || digit(ch)
}

/// White space, as Unicode defines it.
pub open spec fn whitespace(ch: char) -> bool {
    let code = ch as u32;
    ||| 0x09 <= code <= 0x0d
    ||| code == 0x20
    ||| code == 0x85
    ||| code == 0xa0
    ||| code == 0x1680
    ||| 0x2000 <= code <= 0x200a
    ||| code == 0x2028
    ||| code == 0x2029
    ||| code == 0x202f
    ||| code == 0x205f
    ||| code == 0x3000
}

pub fn is_digit(ch: char) -> (yes: bool)
    ensures
        yes == digit(ch),
{
    '0' <= ch && ch <= '9'
}

pub fn is_letter(ch: char) -> (yes: bool)
    ensures
        yes == letter(ch),
{
    ('a' <= ch && ch <= 'z') || ('A' <= ch && ch <= 'Z')
}

pub fn is_whitespace(ch: char) -> (yes: bool)
    ensures
        yes == whitespace(ch),
{
    let code: u32 = ch as u32;
    (0x09 <= code && code <= 0x0d) || code == 0x20 || code == 0x85 || code == 0xa0 || code
        == 0x1680 || (0x2000 <= code && code <= 0x200a) || code == 0x2028 || code == 0x2029
        || code == 0x202f || code == 0x205f || code == 0x3000
}

pub fn is_identifier_first(c: char) -> (yes: bool)
    ensures
        yes == identifier_first(c),
{
    c == '_' || is_letter(c)
}

pub fn is_identifier_part(c: char) -> (yes: bool)
    ensures
        yes == identifier_part(c),
{
    is_letter(c) || is_digit(c)
}

/// How many characters at the start of `text` meet `pred`, up to the first
/// that does not.
pub open spec fn run_len(text: Seq<char>, pred: spec_fn(char) -> bool) -> nat
    decreases text.len(),
{
    if text.len() == 0 || !pred(text[0]) {
        0
    } else {
        1 + run_len(text.drop_first(), pred)
    }
}

/// A run, spelled out: where the first `count` characters meet `pred` and
/// the next one, if there is one, does not, the run is `count` long.
pub proof fn lemma_run_len(text: Seq<char>, pred: spec_fn(char) -> bool, count: int)
    requires
        0 <= count <= text.len(),
        forall|i: int| 0 <= i < count ==> pred(#[trigger] text[i]),
        count == text.len() || !pred(text[count]),
    ensures
        run_len(text, pred) == count,
    decreases count,
{
    if count > 0 {
        let rest = text.drop_first();
        assert(pred(text[0]));
        assert forall|i: int| 0 <= i < count - 1 implies pred(#[trigger] rest[i]) by {
            assert(pred(text[i + 1]));
        }
        lemma_run_len(rest, pred, count - 1);
    }
}

/// Whether reading `bytes` leads from one position to the other.
pub open spec fn reaches(from: Position, bytes: Seq<u8>, to: Position) -> bool {
    (to.line as int, to.column as int) == position_after(from, bytes)
}

/// What reading `count` characters does to a state: they move from the
/// source to the segment, and the current position moves past them.
pub open spec fn read(before: ScanStateView, after: ScanStateView, count: int) -> bool {
    &&& 0 <= count <= before.source.len()
    &&& after.source == before.source.skip(count)
    &&& after.segment == before.segment + before.source.take(count)
    &&& after.start_pos == before.start_pos
    &&& reaches(before.current_pos, encode_utf8(before.source.take(count)), after.current_pos)
}

/// The bytes of two texts in a row are the bytes of the one, then of the other.
pub proof fn lemma_encode_concat(front: Seq<char>, back: Seq<char>)
    ensures
        encode_utf8(front + back) == encode_utf8(front) + encode_utf8(back),
    decreases front.len(),
{
    if front.len() == 0 {
        assert(front + back =~= back);
        assert(encode_utf8(front) =~= Seq::<u8>::empty());
        assert(encode_utf8(front) + encode_utf8(back) =~= encode_utf8(back));
    } else {
        lemma_encode_concat(front.drop_first(), back);
        assert((front + back).drop_first() =~= front.drop_first() + back);
        assert(encode_utf8(front + back) =~= encode_utf8(front) + encode_utf8(back));
    }
}

/// Line breaks and tail of two byte strings in a row.
pub proof fn lemma_newlines_concat(front: Seq<u8>, back: Seq<u8>)
    ensures
        newline_count(front + back) == newline_count(front) + newline_count(back),
        tail_len(front + back) == if newline_count(back) == 0 {
            tail_len(front) + back.len()
        } else {
            tail_len(back)
        },
    decreases back.len(),
{
    if back.len() == 0 {
        assert(front + back =~= front);
    } else {
        lemma_newlines_concat(front, back.drop_last());
        assert((front + back).drop_last() =~= front + back.drop_last());
        state::lemma_newline_bounds(back.drop_last());
    }
}

/// Reading on from where a reading stopped is one reading of both parts.
pub proof fn lemma_reaches_concat(
    from: Position,
    front: Seq<u8>,
    middle: Position,
    back: Seq<u8>,
    to: Position,
)
    requires
        reaches(from, front, middle),
        reaches(middle, back, to),
    ensures
        reaches(from, front + back, to),
{
    lemma_newlines_concat(front, back);
    state::lemma_newline_bounds(front);
    state::lemma_newline_bounds(back);
}

/// Nothing read leaves the state as it is.
pub proof fn lemma_read_nothing(state: ScanStateView)
    ensures
        read(state, state, 0),
{
    assert(state.source.skip(0) =~= state.source);
    assert(state.source.take(0) =~= Seq::<char>::empty());
    assert(state.segment + state.source.take(0) =~= state.segment);
    assert(encode_utf8(state.source.take(0)) =~= Seq::<u8>::empty());
}

/// One more character read.
pub proof fn lemma_read_one_more(
    before: ScanStateView,
    middle: ScanStateView,
    after: ScanStateView,
    count: int,
)
    requires
        read(before, middle, count),
        popped(middle, after),
    ensures
        read(before, after, count + 1),
        count < before.source.len(),
        middle.source[0] == before.source[count],
{
    let ch = before.source[count];
    assert(middle.source[0] == ch);
    let front = before.source.take(count);
    assert(before.source.take(count + 1) =~= front + seq![ch]);
    assert(after.source =~= before.source.skip(count + 1));
    assert(after.segment =~= before.segment + before.source.take(count + 1));
    lemma_encode_concat(front, seq![ch]);
    assert(encode_utf8(seq![ch]) =~= encode_scalar(ch as u32)) by {
        assert(seq![ch].drop_first() =~= Seq::<char>::empty());
        reveal_with_fuel(encode_utf8, 2);
    }
    lemma_reaches_concat(
        before.current_pos,
        encode_utf8(front),
        middle.current_pos,
        encode_scalar(ch as u32),
        after.current_pos,
    );
}

fn not_newline(ch: char) -> (yes: bool)
    ensures
        yes == (ch != '\n'),
{
    ch != '\n'
}

fn not_quote(ch: char) -> (yes: bool)
    ensures
        yes == (ch != '"'),
{
    ch != '"'
}

/// Reads on for as long as the source goes on with a character that meets
/// `pred`, whose results `class` describes.
fn advance_while<F>(state: &mut ScanState, pred: F, Ghost(class): Ghost<spec_fn(char) -> bool>)
    where F: Fn(char) -> bool + Copy
    requires
        old(state).wf(),
        forall|ch: char| pred.requires((ch,)),
        forall|ch: char, yes: bool| pred.ensures((ch,), yes) ==> yes == class(ch),
    ensures
        final(state).wf(),
        read(old(state)@, final(state)@, run_len(old(state)@.source, class) as int),
{
    let ghost mut count: int = 0;
    proof {
        lemma_read_nothing(state@);
    }
    loop
        invariant
            state.wf(),
            read(old(state)@, state@, count),
            forall|i: int| 0 <= i < count ==> class(#[trigger] old(state)@.source[i]),
            forall|ch: char| pred.requires((ch,)),
            forall|ch: char, yes: bool| pred.ensures((ch,), yes) ==> yes == class(ch),
        ensures
            state.wf(),
            read(old(state)@, state@, count),
            count == run_len(old(state)@.source, class),
        decreases old(state)@.source.len() - count,
    {
        let ghost before = state@;
        let matched = state.match_pred(pred);
        if matched.is_none() {
            proof {
                lemma_run_len(old(state)@.source, class, count);
            }
            break ;
        }
        proof {
            lemma_read_one_more(old(state)@, before, state@, count);
            count = count + 1;
        }
    }
}

/// Reads on to the end of the line; the line break stays unread. The
/// segment is dropped.
fn skip_line_comment(state: &mut ScanState)
    requires
        old(state).wf(),
    ensures
        final(state).wf(),
        final(state)@.segment == Seq::<char>::empty(),
        final(state)@.start_pos == final(state)@.current_pos,
        final(state)@.source == old(state)@.source.skip(
            run_len(old(state)@.source, |ch: char| ch != '\n') as int,
        ),
        reaches(
            old(state)@.current_pos,
            encode_utf8(
                old(state)@.source.take(run_len(old(state)@.source, |ch: char| ch != '\n') as int),
            ),
            final(state)@.current_pos,
        ),
{
    advance_while(state, not_newline, Ghost(|ch: char| ch != '\n'));
    state.reset_segment();
}

/// What the scanner makes of one stretch of text.
pub enum Lexed {
    /// White space or a comment: nothing to report.
    Skip,
    /// A token of this kind.
    Token(TokenInfoView),
    /// A failure with this message.
    Error(Seq<char>),
}

/// The kind of a word: a keyword where it is one, else a name.
pub open spec fn word_info(word: Seq<char>) -> TokenInfoView {
    if word == "and"@ {
        TokenInfoView::And
    } else if word == "class"@ {
        TokenInfoView::Class
    } else if word == "else"@ {
        TokenInfoView::Else
    } else if word == "false"@ {
        TokenInfoView::False
    } else if word == "for"@ {
        TokenInfoView::For
    } else if word == "fun"@ {
        TokenInfoView::Fun
    } else if word == "if"@ {
        TokenInfoView::If
    } else if word == "nil"@ {
        TokenInfoView::Nil
    } else if word == "or"@ {
        TokenInfoView::Or
    } else if word == "return"@ {
        TokenInfoView::Return
    } else if word == "super"@ {
        TokenInfoView::Super
    } else if word == "this"@ {
        TokenInfoView::This
    } else if word == "true"@ {
        TokenInfoView::True
    } else if word == "var"@ {
        TokenInfoView::Var
    } else if word == "while"@ {
        TokenInfoView::While
    } else {
        TokenInfoView::Identifier(word)
    }
}

/// The length of the number literal at the start of `text`: digits, and
/// after them a point and more digits where a digit follows the point.
pub open spec fn number_len(text: Seq<char>) -> nat {
    let whole = run_len(text, |ch: char| digit(ch)) as int;
    if whole + 1 < text.len() && text[whole] == '.' && digit(text[whole + 1]) {
        (whole + 1 + run_len(text.skip(whole + 1), |ch: char| digit(ch))) as nat
    } else {
        whole as nat
    }
}

/// The length of the word at the start of `text`: its first character and
/// the letters and digits that follow.
pub open spec fn word_len(text: Seq<char>) -> nat {
    1 + run_len(text.skip(1), |ch: char| identifier_part(ch))
}

/// The length of a token of one character, or of two where `second` follows.
pub open spec fn paired_len(text: Seq<char>, second: char) -> nat {
    if text.len() > 1 && text[1] == second {
        2
    } else {
        1
    }
}

/// One of two kinds: `pair` where the token took two characters.
pub open spec fn paired_info(len: nat, single: TokenInfoView, pair: TokenInfoView) -> Lexed {
    if len == 2 {
        Lexed::Token(pair)
    } else {
        Lexed::Token(single)
    }
}

/// The first stretch of a text that is not empty: how many characters it
/// takes and what the scanner makes of it.
///
/// Punctuation is a token of one character, or of two for `!=`, `==`, `<=`
/// and `>=`. Two slashes start a comment that runs to the end of the line. A
/// double quote starts a string that runs to the next double quote; without
/// one the rest of the text is a failure. White space is skipped one
/// character at a time. A digit starts a number, a letter or an underscore a
/// word. Any other character is a failure.
pub open spec fn first_lexeme(text: Seq<char>) -> (nat, Lexed)
    recommends
        text.len() > 0,
{
    let ch = text[0];
    if ch == '(' {
        (1, Lexed::Token(TokenInfoView::LeftParen))
    } else if ch == ')' {
        (1, Lexed::Token(TokenInfoView::RightParen))
    } else if ch == '{' {
        (1, Lexed::Token(TokenInfoView::LeftBrace))
    } else if ch == '}' {
        (1, Lexed::Token(TokenInfoView::RightBrace))
    } else if ch == ':' {
        (1, Lexed::Token(TokenInfoView::Colon))
    } else if ch == ',' {
        (1, Lexed::Token(TokenInfoView::Comma))
    } else if ch == '.' {
        (1, Lexed::Token(TokenInfoView::Dot))
    } else if ch == '-' {
        (1, Lexed::Token(TokenInfoView::Minus))
    } else if ch == '+' {
        (1, Lexed::Token(TokenInfoView::Plus))
    } else if ch == '?' {
        (1, Lexed::Token(TokenInfoView::QuestionMark))
    } else if ch == ';' {
        (1, Lexed::Token(TokenInfoView::Semicolon))
    } else if ch == '*' {
        (1, Lexed::Token(TokenInfoView::Star))
    } else if ch == '!' {
        let len = paired_len(text, '=');
        (len, paired_info(len, TokenInfoView::Bang, TokenInfoView::BangEqual))
    } else if ch == '=' {
        let len = paired_len(text, '=');
        (len, paired_info(len, TokenInfoView::Equal, TokenInfoView::EqualEqual))
    } else if ch == '<' {
        let len = paired_len(text, '=');
        (len, paired_info(len, TokenInfoView::Less, TokenInfoView::LessEqual))
    } else if ch == '>' {
        let len = paired_len(text, '=');
        (len, paired_info(len, TokenInfoView::Greater, TokenInfoView::GreaterEqual))
    } else if ch == '/' {
        if paired_len(text, '/') == 2 {
            (2 + run_len(text.skip(2), |ch: char| ch != '\n'), Lexed::Skip)
        } else {
            (1, Lexed::Token(TokenInfoView::Slash))
        }
    } else if ch == '"' {
        let body = run_len(text.skip(1), |ch: char| ch != '"');
        if 1 + body < text.len() {
            (
                body + 2,
                Lexed::Token(TokenInfoView::StringLiteral(text.subrange(1, 1 + body as int))),
            )
        } else {
            (1 + body, Lexed::Error("Unterminated string literal"@))
        }
    } else if whitespace(ch) {
        (1, Lexed::Skip)
    } else if digit(ch) {
        let len = number_len(text);
        (len, Lexed::Token(TokenInfoView::NumberLiteral(text.take(len as int))))
    } else if identifier_first(ch) {
        let len = word_len(text);
        (len, Lexed::Token(word_info(text.take(len as int))))
    } else {
        (1, Lexed::Error("Unexpected character "@.push(ch)))
    }
}

/// The position that reading `bytes` leads to from `from`.
pub open spec fn moved(from: Position, bytes: Seq<u8>) -> Position {
    Position {
        line: position_after(from, bytes).0 as usize,
        column: position_after(from, bytes).1 as usize,
    }
}

/// What a scan makes of `text`, read from the position `from`: the messages
/// of its failures and its tokens, each in the order of the text. Every
/// token carries the position where it ends. The last token marks the end of
/// the text.
pub open spec fn scanned(text: Seq<char>, from: Position) -> (Seq<Seq<char>>, Seq<TokenView>)
    decreases text.len(),
{
    let len = first_lexeme(text).0;
    if text.len() == 0 || len == 0 || len > text.len() {
        (
            Seq::empty(),
            seq![
                TokenView {
                    lexeme: Seq::empty(),
                    info: TokenInfoView::EOF,
                    meta: TokenMeta::at(from.line, from.column),
                },
            ],
        )
    } else {
        let to = moved(from, encode_utf8(text.take(len as int)));
        let rest = scanned(text.skip(len as int), to);
        match first_lexeme(text).1 {
            Lexed::Skip => rest,
            Lexed::Token(info) => (
                rest.0,
                seq![
                    TokenView {
                        lexeme: text.take(len as int),
                        info,
                        meta: TokenMeta::at(to.line, to.column),
                    },
                ] + rest.1,
            ),
            Lexed::Error(message) => (seq![message] + rest.0, rest.1),
        }
    }
}

/// A run is no longer than its text.
pub proof fn lemma_run_len_bound(text: Seq<char>, pred: spec_fn(char) -> bool)
    ensures
        run_len(text, pred) <= text.len(),
        forall|i: int| 0 <= i < run_len(text, pred) ==> pred(#[trigger] text[i]),
        run_len(text, pred) < text.len() ==> !pred(text[run_len(text, pred) as int]),
    decreases text.len(),
{
    if text.len() > 0 && pred(text[0]) {
        let rest = text.drop_first();
        lemma_run_len_bound(rest, pred);
        assert forall|i: int| 0 <= i < run_len(text, pred) implies pred(#[trigger] text[i]) by {
            if i > 0 {
                assert(text[i] == rest[i - 1]);
            }
        }
        if run_len(text, pred) < text.len() {
            assert(text[run_len(text, pred) as int] == rest[run_len(rest, pred) as int]);
        }
    }
}

/// The first stretch of a text takes at least one character and no more
/// than the text has.
pub proof fn lemma_first_lexeme_len(text: Seq<char>)
    requires
        text.len() > 0,
    ensures
        1 <= first_lexeme(text).0 <= text.len(),
{
    lemma_run_len_bound(text.skip(2), |ch: char| ch != '\n');
    lemma_run_len_bound(text.skip(1), |ch: char| ch != '"');
    lemma_run_len_bound(text.skip(1), |ch: char| identifier_part(ch));
    lemma_run_len_bound(text, |ch: char| digit(ch));
    let whole = run_len(text, |ch: char| digit(ch)) as int;
    if digit(text[0]) {
        assert(whole >= 1);
        if whole + 1 < text.len() {
            lemma_run_len_bound(text.skip(whole + 1), |ch: char| digit(ch));
        }
    }
}

/// A failure of the scanner.
#[derive(Debug, PartialEq, Eq)]
pub struct ScanError {
    msg: String,
}

impl ScanError {
    /// The message of the failure, as plain text.
    pub closed spec fn message(&self) -> Seq<char> {
        self.msg@
    }

    pub fn new(_state: &ScanState, msg: String) -> (error: Self)
        ensures
            error.message() == msg@,
    {
        Self { msg }
    }

    pub fn msg(&self) -> (msg: &str)
        ensures
            msg@ == self.message(),
    {
        self.msg.as_str()
    }
}

/// Whether two texts are the same, byte for byte.
fn text_is(text: &str, word: &str) -> (same: bool)
    ensures
        same == (text@ == word@),
{
    let left: &[u8] = text.as_bytes();
    let right: &[u8] = word.as_bytes();
    if left.len() != right.len() {
        return false;
    }
    let mut index: usize = 0;
    while index < left.len()
        invariant
            index <= left@.len(),
            left@.len() == right@.len(),
            left@ == encode_utf8(text@),
            right@ == encode_utf8(word@),
            forall|i: int| 0 <= i < index ==> left@[i] == right@[i],
        decreases left@.len() - index,
    {
        if left[index] != right[index] {
            return false;
        }
        index = index + 1;
    }
    proof {
        assert(left@ =~= right@);
        state::lemma_text_of_bytes(text);
        state::lemma_text_of_bytes(word);
    }
    true
}

/// The kind of a word: a keyword where it is one, else a name.
fn word_token_info(lexeme: &str) -> (info: TokenInfo)
    ensures
        info@ == word_info(lexeme@),
{
    if text_is(lexeme, "and") {
        TokenInfo::And
    } else if text_is(lexeme, "class") {
        TokenInfo::Class
    } else if text_is(lexeme, "else") {
        TokenInfo::Else
    } else if text_is(lexeme, "false") {
        TokenInfo::False
    } else if text_is(lexeme, "for") {
        TokenInfo::For
    } else if text_is(lexeme, "fun") {
        TokenInfo::Fun
    } else if text_is(lexeme, "if") {
        TokenInfo::If
    } else if text_is(lexeme, "nil") {
        TokenInfo::Nil
    } else if text_is(lexeme, "or") {
        TokenInfo::Or
    } else if text_is(lexeme, "return") {
        TokenInfo::Return
    } else if text_is(lexeme, "super") {
        TokenInfo::Super
    } else if text_is(lexeme, "this") {
        TokenInfo::This
    } else if text_is(lexeme, "true") {
        TokenInfo::True
    } else if text_is(lexeme, "var") {
        TokenInfo::Var
    } else if text_is(lexeme, "while") {
        TokenInfo::While
    } else {
        TokenInfo::Identifier(String::from_str(lexeme))
    }
}

/// Makes a token of the segment: its text is the segment, and it ends at the
/// current position. A new segment starts there.
fn make_token(state: &mut ScanState, info: TokenInfo) -> (token: Token)
    requires
        old(state).wf(),
    ensures
        final(state).wf(),
        token@ == (TokenView {
            lexeme: old(state)@.segment,
            info: info@,
            meta: TokenMeta::at(old(state)@.current_pos.line, old(state)@.current_pos.column),
        }),
        final(state)@.source == old(state)@.source,
        final(state)@.current_pos == old(state)@.current_pos,
        final(state)@.start_pos == old(state)@.current_pos,
        final(state)@.segment == Seq::<char>::empty(),
{
    let (lexeme, start_pos, _) = state.take_segment();
    Token::new(lexeme, info, TokenMeta::new(start_pos.line, start_pos.column))
}

/// Reading on from where a reading stopped is one reading of both parts.
pub proof fn lemma_read_more(
    before: ScanStateView,
    middle: ScanStateView,
    after: ScanStateView,
    first: int,
    second: int,
)
    requires
        read(before, middle, first),
        read(middle, after, second),
    ensures
        read(before, after, first + second),
        middle.source.take(second) == before.source.subrange(first, first + second),
{
    let front = before.source.take(first);
    let back = middle.source.take(second);
    assert(back =~= before.source.subrange(first, first + second));
    assert(before.source.take(first + second) =~= front + back);
    assert(after.source =~= before.source.skip(first + second));
    assert(after.segment =~= before.segment + before.source.take(first + second));
    lemma_encode_concat(front, back);
    lemma_reaches_concat(
        before.current_pos,
        encode_utf8(front),
        middle.current_pos,
        encode_utf8(back),
        after.current_pos,
    );
}

/// One character read is a reading of one.
pub proof fn lemma_read_popped(before: ScanStateView, after: ScanStateView)
    requires
        popped(before, after),
    ensures
        read(before, after, 1),
{
    lemma_read_nothing(before);
    lemma_read_one_more(before, before, after, 0);
}

/// What of the first stretch of a text stays in the segment once the
/// scanner has dealt with it: nothing of a token or a comment, which start a
/// new segment, and all of white space or a failure.
pub open spec fn kept_text(text: Seq<char>) -> Seq<char>
    recommends
        text.len() > 0,
{
    match first_lexeme(text).1 {
        Lexed::Token(_) => Seq::empty(),
        Lexed::Skip => if text[0] == '/' {
            Seq::empty()
        } else {
            text.take(1)
        },
        Lexed::Error(_) => text.take(first_lexeme(text).0 as int),
    }
}

/// A state whose segment has just been started: it is empty and starts
/// where the reading has come to.
pub open spec fn settled(state: ScanStateView) -> bool {
    state.segment.len() == 0 && state.start_pos == state.current_pos
}

/// Whether a result of the scanner says what `lexed` says of a stretch with
/// the text `lexeme` that ends at `end`.
pub open spec fn lexed_as(
    result: Result<Option<Token>, ScanError>,
    lexed: Lexed,
    lexeme: Seq<char>,
    end: Position,
) -> bool {
    match lexed {
        Lexed::Skip => result.is_ok() && result.unwrap().is_none(),
        Lexed::Token(info) => result.is_ok() && result.unwrap().is_some()
            && result.unwrap().unwrap()@ == (TokenView {
            lexeme,
            info,
            meta: TokenMeta::at(end.line, end.column),
        }),
        Lexed::Error(message) => result.is_err() && result.unwrap_err().message() == message,
    }
}

/// Reads the rest of a number whose first digit has been read.
fn scan_number_literal(state: &mut ScanState, Ghost(origin): Ghost<ScanStateView>) -> (result:
    Result<Token, ScanError>)
    requires
        old(state).wf(),
        read(origin, old(state)@, 1),
        origin.segment.len() == 0,
        digit(origin.source[0]),
    ensures
        final(state).wf(),
        final(state)@.source == origin.source.skip(number_len(origin.source) as int),
        reaches(
            origin.current_pos,
            encode_utf8(origin.source.take(number_len(origin.source) as int)),
            final(state)@.current_pos,
        ),
        settled(final(state)@),
        result.is_ok(),
        result.unwrap()@ == (TokenView {
            lexeme: origin.source.take(number_len(origin.source) as int),
            info: TokenInfoView::NumberLiteral(
                origin.source.take(number_len(origin.source) as int),
            ),
            meta: TokenMeta::at(
                final(state)@.current_pos.line,
                final(state)@.current_pos.column,
            ),
        }),
{
    let ghost text = origin.source;
    let ghost first = state@;
    advance_while(state, is_digit, Ghost(|ch: char| digit(ch)));
    let ghost whole = run_len(text, |ch: char| digit(ch)) as int;
    proof {
        lemma_read_more(
            origin,
            first,
            state@,
            1,
            run_len(first.source, |ch: char| digit(ch)) as int,
        );
        assert(first.source =~= text.drop_first());
        assert(whole == 1 + run_len(first.source, |ch: char| digit(ch)));
        lemma_run_len_bound(text, |ch: char| digit(ch));
    }
    let ghost middle = state@;
    let fraction: bool = match state.peek_chars::<2>() {
        Some(pair) => pair[0] == '.' && is_digit(pair[1]),
        None => false,
    };
    proof {
        if whole + 1 < text.len() {
            assert(middle.source.take(2)[0] == text[whole]);
            assert(middle.source.take(2)[1] == text[whole + 1]);
        }
    }
    if fraction {
        state.pop_char();
        let ghost point = state@;
        advance_while(state, is_digit, Ghost(|ch: char| digit(ch)));
        proof {
            lemma_read_popped(middle, point);
            lemma_read_more(origin, middle, point, whole, 1);
            assert(point.source =~= text.skip(whole + 1));
            lemma_read_more(
                origin,
                point,
                state@,
                whole + 1,
                run_len(point.source, |ch: char| digit(ch)) as int,
            );
        }
    }
    let ghost len = number_len(text) as int;
    assert(read(origin, state@, len));
    assert(state@.segment =~= text.take(len));
    let info = TokenInfo::NumberLiteral(String::from_str(state.segment().0));
    Ok(make_token(state, info))
}

/// Reads the rest of a string whose opening quote has been read.
fn scan_string_literal(state: &mut ScanState, Ghost(origin): Ghost<ScanStateView>) -> (result:
    Result<Token, ScanError>)
    requires
        old(state).wf(),
        read(origin, old(state)@, 1),
        origin.segment.len() == 0,
        origin.source[0] == '"',
    ensures
        final(state).wf(),
        final(state)@.source == origin.source.skip(first_lexeme(origin.source).0 as int),
        reaches(
            origin.current_pos,
            encode_utf8(origin.source.take(first_lexeme(origin.source).0 as int)),
            final(state)@.current_pos,
        ),
        result.is_ok() ==> settled(final(state)@),
        result.is_err() ==> final(state)@.start_pos == origin.start_pos && final(state)@.segment
            == origin.source.take(first_lexeme(origin.source).0 as int),
        lexed_as(
            match result {
                Ok(token) => Ok(Some(token)),
                Err(error) => Err(error),
            },
            first_lexeme(origin.source).1,
            origin.source.take(first_lexeme(origin.source).0 as int),
            final(state)@.current_pos,
        ),
{
    let ghost text = origin.source;
    let ghost first = state@;
    advance_while(state, not_quote, Ghost(|ch: char| ch != '"'));
    let ghost body = run_len(text.skip(1), |ch: char| ch != '"') as int;
    proof {
        assert(first.source =~= text.skip(1));
        lemma_read_more(origin, first, state@, 1, body);
        lemma_run_len_bound(text.skip(1), |ch: char| ch != '"');
    }
    let ghost middle = state@;
    if !state.match_char('"') {
        proof {
            if 1 + body < text.len() {
                assert(middle.source[0] == text.skip(1)[body]);
            }
        }
        return Err(ScanError::new(state, String::from_str("Unterminated string literal")));
    }
    proof {
        lemma_read_popped(middle, state@);
        lemma_read_more(origin, middle, state@, 1 + body, 1);
        assert(state@.segment =~= text.take(body + 2));
    }
    let lexeme: &str = state.segment().0;
    let count: usize = lexeme.unicode_len();
    let inner: &str = lexeme.substring_char(1, count - 1);
    proof {
        assert(inner@ =~= text.subrange(1, 1 + body));
    }
    let info = TokenInfo::StringLiteral(String::from_str(inner));
    Ok(make_token(state, info))
}

/// Reads the rest of a word whose first character has been read.
fn scan_identifier(state: &mut ScanState, Ghost(origin): Ghost<ScanStateView>) -> (result: Result<
    Token,
    ScanError,
>)
    requires
        old(state).wf(),
        read(origin, old(state)@, 1),
        origin.segment.len() == 0,
    ensures
        final(state).wf(),
        final(state)@.source == origin.source.skip(word_len(origin.source) as int),
        reaches(
            origin.current_pos,
            encode_utf8(
                origin.source.take(word_len(origin.source) as int),
            ),
            final(state)@.current_pos,
        ),
        settled(final(state)@),
        result.is_ok(),
        result.unwrap()@ == (TokenView {
            lexeme: origin.source.take(word_len(origin.source) as int),
            info: word_info(
                origin.source.take(word_len(origin.source) as int),
            ),
            meta: TokenMeta::at(
                final(state)@.current_pos.line,
                final(state)@.current_pos.column,
            ),
        }),
{
    let ghost text = origin.source;
    let ghost first = state@;
    advance_while(state, is_identifier_part, Ghost(|ch: char| identifier_part(ch)));
    let ghost len = word_len(text) as int;
    proof {
        assert(first.source =~= text.skip(1));
        lemma_read_more(origin, first, state@, 1, len - 1);
        assert(state@.segment =~= text.take(len));
    }
    let info = word_token_info(state.segment().0);
    Ok(make_token(state, info))
}

/// Makes the token of one character, or of two where the source goes on
/// with `second`.
fn scan_paired(
    state: &mut ScanState,
    second: char,
    single: TokenInfo,
    pair: TokenInfo,
    Ghost(origin): Ghost<ScanStateView>,
) -> (token: Token)
    requires
        old(state).wf(),
        read(origin, old(state)@, 1),
        origin.segment.len() == 0,
    ensures
        final(state).wf(),
        final(state)@.source == origin.source.skip(paired_len(origin.source, second) as int),
        reaches(
            origin.current_pos,
            encode_utf8(origin.source.take(paired_len(origin.source, second) as int)),
            final(state)@.current_pos,
        ),
        settled(final(state)@),
        token@ == (TokenView {
            lexeme: origin.source.take(paired_len(origin.source, second) as int),
            info: if paired_len(origin.source, second) == 2 {
                pair@
            } else {
                single@
            },
            meta: TokenMeta::at(
                final(state)@.current_pos.line,
                final(state)@.current_pos.column,
            ),
        }),
{
    let ghost first = state@;
    if state.match_char(second) {
        proof {
            lemma_read_popped(first, state@);
            lemma_read_more(origin, first, state@, 1, 1);
            assert(first.source[0] == origin.source[1]);
            assert(state@.segment =~= origin.source.take(2));
        }
        make_token(state, pair)
    } else {
        proof {
            if origin.source.len() > 1 {
                assert(first.source[0] == origin.source[1]);
            }
            assert(state@.segment =~= origin.source.take(1));
        }
        make_token(state, single)
    }
}

/// Reads the next stretch of the source and says what it is: a token,
/// nothing to report, or a failure. A token or a comment leaves a new, empty
/// segment; white space or a failure stays in the segment.
fn scan_next(state: &mut ScanState) -> (result: Result<Option<Token>, ScanError>)
    requires
        old(state).wf(),
        old(state)@.segment.len() == 0,
    ensures
        final(state).wf(),
        old(state)@.source.len() == 0 ==> result.is_ok() && result.unwrap().is_none() && final(state)@ == old(state)@,
        old(state)@.source.len() > 0 ==> final(state)@.source == old(state)@.source.skip(
            first_lexeme(old(state)@.source).0 as int,
        ) && final(state)@.current_pos == moved(
            old(state)@.current_pos,
            encode_utf8(old(state)@.source.take(first_lexeme(old(state)@.source).0 as int)),
        ) && lexed_as(
            result,
            first_lexeme(old(state)@.source).1,
            old(state)@.source.take(first_lexeme(old(state)@.source).0 as int),
            final(state)@.current_pos,
        ),
        old(state)@.source.len() > 0 ==> final(state)@.segment == kept_text(old(state)@.source),
        old(state)@.source.len() > 0 ==> final(state)@.start_pos == if kept_text(
            old(state)@.source,
        ).len() == 0 {
            final(state)@.current_pos
        } else {
            old(state)@.start_pos
        },
{
    let ghost origin = state@;
    let ghost text = origin.source;
    let c: char = match state.pop_char() {
        Some(c) => c,
        None => {
            return Ok(None);
        },
    };
    proof {
        lemma_read_popped(origin, state@);
        assert(state@.segment =~= text.take(1));
        lemma_first_lexeme_len(text);
        assert(text.take(1).len() == 1);
        assert(text.take(first_lexeme(text).0 as int).len() == first_lexeme(text).0);
    }
    if c == '(' {
        Ok(Some(make_token(state, TokenInfo::LeftParen)))
    } else if c == ')' {
        Ok(Some(make_token(state, TokenInfo::RightParen)))
    } else if c == '{' {
        Ok(Some(make_token(state, TokenInfo::LeftBrace)))
    } else if c == '}' {
        Ok(Some(make_token(state, TokenInfo::RightBrace)))
    } else if c == ':' {
        Ok(Some(make_token(state, TokenInfo::Colon)))
    } else if c == ',' {
        Ok(Some(make_token(state, TokenInfo::Comma)))
    } else if c == '.' {
        Ok(Some(make_token(state, TokenInfo::Dot)))
    } else if c == '-' {
        Ok(Some(make_token(state, TokenInfo::Minus)))
    } else if c == '+' {
        Ok(Some(make_token(state, TokenInfo::Plus)))
    } else if c == '?' {
        Ok(Some(make_token(state, TokenInfo::QuestionMark)))
    } else if c == ';' {
        Ok(Some(make_token(state, TokenInfo::Semicolon)))
    } else if c == '*' {
        Ok(Some(make_token(state, TokenInfo::Star)))
    } else if c == '!' {
        Ok(Some(scan_paired(state, '=', TokenInfo::Bang, TokenInfo::BangEqual, Ghost(origin))))
    } else if c == '=' {
        Ok(Some(scan_paired(state, '=', TokenInfo::Equal, TokenInfo::EqualEqual, Ghost(origin))))
    } else if c == '<' {
        Ok(Some(scan_paired(state, '=', TokenInfo::Less, TokenInfo::LessEqual, Ghost(origin))))
    } else if c == '>' {
        Ok(
            Some(
                scan_paired(
                    state,
                    '=',
                    TokenInfo::Greater,
                    TokenInfo::GreaterEqual,
                    Ghost(origin),
                ),
            ),
        )
    } else if c == '/' {
        let ghost first = state@;
        if state.match_char('/') {
            let ghost second = state@;
            skip_line_comment(state);
            proof {
                lemma_read_popped(first, second);
                lemma_read_more(origin, first, second, 1, 1);
                assert(first.source[0] == text[1]);
                assert(second.source =~= text.skip(2));
                let rest = run_len(text.skip(2), |ch: char| ch != '\n') as int;
                lemma_run_len_bound(text.skip(2), |ch: char| ch != '\n');
                assert(text.take(2 + rest) =~= text.take(2) + second.source.take(rest));
                lemma_encode_concat(text.take(2), second.source.take(rest));
                lemma_reaches_concat(
                    origin.current_pos,
                    encode_utf8(text.take(2)),
                    second.current_pos,
                    encode_utf8(second.source.take(rest)),
                    state@.current_pos,
                );
                assert(state@.source =~= text.skip(2 + rest));
            }
            Ok(None)
        } else {
            proof {
                if text.len() > 1 {
                    assert(first.source[0] == text[1]);
                }
            }
            Ok(Some(make_token(state, TokenInfo::Slash)))
        }
    } else if c == '"' {
        match scan_string_literal(state, Ghost(origin)) {
            Ok(token) => Ok(Some(token)),
            Err(error) => Err(error),
        }
    } else if is_whitespace(c) {
        Ok(None)
    } else if is_digit(c) {
        match scan_number_literal(state, Ghost(origin)) {
            Ok(token) => Ok(Some(token)),
            Err(error) => Err(error),
        }
    } else if is_identifier_first(c) {
        match scan_identifier(state, Ghost(origin)) {
            Ok(token) => Ok(Some(token)),
            Err(error) => Err(error),
        }
    } else {
        let mut message = String::from_str("Unexpected character ");
        message.push(c);
        Err(ScanError::new(state, message))
    }
}

/// The messages of a list of failures.
pub open spec fn messages(errors: Seq<ScanError>) -> Seq<Seq<char>> {
    errors.map_values(|error: ScanError| error.message())
}

/// A list of tokens as plain values.
pub open spec fn token_views(tokens: Seq<Token>) -> Seq<TokenView> {
    tokens.map_values(|token: Token| token@)
}

/// Scans a source from its start to its end: the failures and the tokens,
/// each in the order of the text. The last token marks the end of the text.
pub fn scan(source: Source) -> (result: (Vec<ScanError>, Vec<Token>))
    ensures
        messages(result.0@) == scanned(source@.text, Position { line: 0, column: 0 }).0,
        token_views(result.1@) == scanned(source@.text, Position { line: 0, column: 0 }).1,
{
    let mut tokens: Vec<Token> = Vec::new();
    let mut errors: Vec<ScanError> = Vec::new();
    let mut state = ScanState::new(source.text());
    let ghost whole = scanned(source@.text, Position { line: 0, column: 0 });
    proof {
        assert(messages(errors@) + scanned(state@.source, state@.current_pos).0 =~= whole.0);
        assert(token_views(tokens@) + scanned(state@.source, state@.current_pos).1 =~= whole.1);
    }
    while !state.is_at_end()
        invariant
            state.wf(),
            messages(errors@) + scanned(state@.source, state@.current_pos).0 == whole.0,
            token_views(tokens@) + scanned(state@.source, state@.current_pos).1 == whole.1,
        decreases state@.source.len(),
    {
        state.reset_segment();
        let ghost before = state@;
        let ghost seen = messages(errors@);
        let ghost made = token_views(tokens@);
        let ghost rest = scanned(before.source, before.current_pos);
        proof {
            lemma_first_lexeme_len(before.source);
        }
        match scan_next(&mut state) {
            Err(err) => {
                errors.push(err);
                proof {
                    let after = scanned(state@.source, state@.current_pos);
                    assert(messages(errors@) =~= seen.push(err.message()));
                    assert(rest.0 == seq![err.message()] + after.0);
                    assert(messages(errors@) + after.0 =~= seen + rest.0);
                }
            },
            Ok(Some(token)) => {
                tokens.push(token);
                proof {
                    let after = scanned(state@.source, state@.current_pos);
                    assert(token_views(tokens@) =~= made.push(token@));
                    assert(rest.1 == seq![token@] + after.1);
                    assert(token_views(tokens@) + after.1 =~= made + rest.1);
                }
            },
            Ok(None) => {},
        }
    }
    let position = state.current_position();
    let end = Token::new(String::new(), TokenInfo::EOF, TokenMeta::new(position.line, position.column));
    proof {
        let last = scanned(state@.source, state@.current_pos);
        assert(last.0 =~= Seq::<Seq<char>>::empty());
        assert(last.1 =~= seq![end@]);
        assert(messages(errors@) =~= whole.0);
        assert(token_views(tokens@).push(end@) =~= whole.1);
    }
    tokens.push(end);
    proof {
        assert(token_views(tokens@) =~= whole.1);
    }
    (errors, tokens)
}

} // verus!
