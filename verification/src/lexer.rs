//! Lexer for a small C-like language: turns source text into a stream of
//! tokens by a single left-to-right scan with maximal munch.
//!
//! A run of non-breaking characters is buffered and classified only when a
//! breaking character (whitespace or one of the seven specials `(){};,=`)
//! or the end of the input is reached: keywords first, then numeric
//! literals, else identifiers.

use vstd::prelude::*;

verus! {

use vstd::string::StrSliceExecFns;

/// The kind of a lexical token.
#[derive(Debug, PartialEq, Eq, Structural, Clone, Copy)]
pub enum TokenType {
    // Identifiers and literals
    NIDENT,
    IDENT,
    // bounds
    LPAREN,
    RPAREN,
    LBRACE,
    RBRACE,
    // types
    INT,
    // assignments & comparisons
    LT,
    GT,
    EQ,
    // Delimiters
    COMMA,
    SEMICOLON,
    // Keywords
    RETURN,
}

/// One lexical token: its kind and the literal text that produced it.
#[derive(Debug, PartialEq, Clone)]
pub struct Token {
    pub token_type: TokenType,
    pub literal: String,
}

/// The mathematical model of a token: its kind and its text as a
/// sequence of characters.
pub struct TokenModel {
    pub kind: TokenType,
    pub text: Seq<char>,
}

impl View for Token {
    type V = TokenModel;

    open spec fn view(&self) -> TokenModel {
        TokenModel { kind: self.token_type, text: self.literal@ }
    }
}

/// The characters that `char::is_whitespace` accepts: the Unicode
/// `White_Space` code points.
pub open spec fn is_space(c: char) -> bool {
    let u = c as u32;
    ||| u == 0x09
    ||| u == 0x0A
    ||| u == 0x0B
    ||| u == 0x0C
    ||| u == 0x0D
    ||| u == 0x20
    ||| u == 0x85
    ||| u == 0xA0
    ||| u == 0x1680
    ||| (0x2000 <= u && u <= 0x200A)
    ||| u == 0x2028
    ||| u == 0x2029
    ||| u == 0x202F
    ||| u == 0x205F
    ||| u == 0x3000
}

/// A decimal digit, `'0'` through `'9'`.
pub open spec fn is_digit(c: char) -> bool {
    0x30 <= c as u32 && c as u32 <= 0x39
}

/// Every character of the sequence is a decimal digit.
pub open spec fn all_digits(s: Seq<char>) -> bool {
    forall|i: int| 0 <= i < s.len() ==> is_digit(#[trigger] s[i])
}

/// The kind of the token a special character is emitted as, or `None`
/// for every other character.
pub open spec fn special_kind(c: char) -> Option<TokenType> {
    match c {
        '(' => Some(TokenType::LPAREN),
        ')' => Some(TokenType::RPAREN),
        '{' => Some(TokenType::LBRACE),
        '}' => Some(TokenType::RBRACE),
        ',' => Some(TokenType::COMMA),
        ';' => Some(TokenType::SEMICOLON),
        '=' => Some(TokenType::EQ),
        _ => None,
    }
}

/// One of the seven single-character tokens `( ) { } , ; =`.
pub open spec fn is_special(c: char) -> bool {
    special_kind(c) is Some
}

/// A character that ends a buffered run: whitespace or a special.
pub open spec fn is_breaking(c: char) -> bool {
    is_space(c) || is_special(c)
}

/// Classification of a completed run of non-breaking characters:
/// keywords first, then numeric literals, else identifiers.
pub open spec fn classify_token(run: Seq<char>) -> TokenModel {
    if run == "return"@ {
        TokenModel { kind: TokenType::RETURN, text: run }
    } else if run == "int"@ {
        TokenModel { kind: TokenType::INT, text: run }
    } else if all_digits(run) {
        TokenModel { kind: TokenType::NIDENT, text: run }
    } else {
        TokenModel { kind: TokenType::IDENT, text: run }
    }
}

/// The tokens that the scan yields on `input` when `buf` holds the
/// not-yet-classified run read so far.
pub open spec fn spec_lex_from(input: Seq<char>, buf: Seq<char>) -> Seq<TokenModel>
    decreases input.len(),
{
    if input.len() == 0 {
        if buf.len() == 0 {
            Seq::<TokenModel>::empty()
        } else {
            seq![classify_token(buf)]
        }
    } else {
        let c = input[0];
        let rest = input.drop_first();
        if is_breaking(c) {
            let flushed = if buf.len() > 0 {
                seq![classify_token(buf)]
            } else {
                Seq::<TokenModel>::empty()
            };
            let emitted = match special_kind(c) {
                Some(k) => flushed.push(TokenModel { kind: k, text: seq![c] }),
                None => flushed,
            };
            emitted + spec_lex_from(rest, Seq::<char>::empty())
        } else {
            spec_lex_from(rest, buf.push(c))
        }
    }
}

/// The tokens that a full scan of `input` yields.
pub open spec fn spec_lex(input: Seq<char>) -> Seq<TokenModel> {
    spec_lex_from(input, Seq::<char>::empty())
}

/// Emits the token for one of the seven special characters, or `None`
/// for any other character.
fn special_mapper(ch: &char) -> (t: Option<Token>)
    ensures
        t is Some <==> special_kind(*ch) is Some,
        t is Some ==> Some(t->Some_0@.kind) == special_kind(*ch) && t->Some_0@.text == seq![*ch],
{
    match *ch {
        '(' => Some(Token { token_type: TokenType::LPAREN, literal: char_string('(') }),
        ')' => Some(Token { token_type: TokenType::RPAREN, literal: char_string(')') }),
        '{' => Some(Token { token_type: TokenType::LBRACE, literal: char_string('{') }),
        '}' => Some(Token { token_type: TokenType::RBRACE, literal: char_string('}') }),
        ',' => Some(Token { token_type: TokenType::COMMA, literal: char_string(',') }),
        ';' => Some(Token { token_type: TokenType::SEMICOLON, literal: char_string(';') }),
        '=' => Some(Token { token_type: TokenType::EQ, literal: char_string('=') }),
        _ => None,
    }
}

/// Whether the character is Unicode whitespace, as `char::is_whitespace`
/// defines it.
fn is_whitespace_char(c: char) -> (r: bool)
    ensures
        r == is_space(c),
{
    let u = c as u32;
    u == 0x09 || u == 0x0A || u == 0x0B || u == 0x0C || u == 0x0D || u == 0x20 || u == 0x85
        || u == 0xA0 || u == 0x1680 || (0x2000 <= u && u <= 0x200A) || u == 0x2028 || u == 0x2029
        || u == 0x202F || u == 0x205F || u == 0x3000
}

/// Character-by-character string equality.
fn str_eq(a: &str, b: &str) -> (r: bool)
    ensures
        r == (a@ == b@),
{
    let a_len = a.unicode_len();
    let b_len = b.unicode_len();
    if a_len != b_len {
        proof {
            assert(a@ != b@);
        }
        return false;
    }
    let mut i: usize = 0;
    while i < a_len
        invariant
            a_len == a@.len(),
            b_len == b@.len(),
            a_len == b_len,
            i <= a_len,
            forall|j: int| 0 <= j < i ==> a@[j] == b@[j],
        decreases a_len - i,
    {
        if a.get_char(i) != b.get_char(i) {
            proof {
                assert(a@ != b@);
            }
            return false;
        }
        i = i + 1;
    }
    proof {
        assert(a@ =~= b@);
    }
    true
}

/// Classifies a completed run as a numeric literal when every character
/// is a decimal digit, else as an identifier.
fn literal_mapper(literal: &str) -> (t: Token)
    ensures
        t@ == (if all_digits(literal@) {
            TokenModel { kind: TokenType::NIDENT, text: literal@ }
        } else {
            TokenModel { kind: TokenType::IDENT, text: literal@ }
        }),
{
    // check if all are digits
    let len = literal.unicode_len();
    let mut i: usize = 0;
    let mut digits = true;
    while i < len
        invariant
            len == literal@.len(),
            i <= len,
            digits == (forall|j: int| 0 <= j < i ==> is_digit(#[trigger] literal@[j])),
        decreases len - i,
    {
        let c = literal.get_char(i);
        let u = c as u32;
        if !(0x30 <= u && u <= 0x39) {
            digits = false;
        }
        i = i + 1;
    }
    if digits {
        Token { token_type: TokenType::NIDENT, literal: literal.to_owned() }
    } else {
        Token { token_type: TokenType::IDENT, literal: literal.to_owned() }
    }
}

/// Classifies a completed run: keyword lookup first, then the numeric
/// or identifier rule of `literal_mapper`.
fn identifier_mapper(ident: &str) -> (t: Token)
    ensures
        t@ == classify_token(ident@),
{
    if str_eq(ident, "return") {
        Token { token_type: TokenType::RETURN, literal: ident.to_owned() }
    } else if str_eq(ident, "int") {
        Token { token_type: TokenType::INT, literal: ident.to_owned() }
    } else {
        literal_mapper(ident)
    }
}

/// Whether the character ends the run buffered in `curr`: only when the
/// buffer is non-empty and the character is whitespace or a special.
fn should_break_running_token(ch: &char, curr: &String) -> (r: bool)
    ensures
        r == (curr@.len() > 0 && is_breaking(*ch)),
{
    if curr.as_str().is_empty() {
        return false;
    }
    if is_whitespace_char(*ch) || *ch == ',' || *ch == '(' || *ch == ')' || *ch == '{' || *ch
        == '}' || *ch == ';' || *ch == '=' {
        return true;
    }
    false
}

/// Relies on `String::push`: appends the one character to the end of
/// the string.
#[verifier::external_body]
fn push_char(s: &mut String, c: char)
    ensures
        final(s)@ == old(s)@.push(c),
{
    s.push(c);
}

/// A fresh one-character string.
fn char_string(c: char) -> (s: String)
    ensures
        s@ == seq![c],
{
    let mut s = String::new();
    push_char(&mut s, c);
    proof {
        assert(s@ =~= seq![c]);
    }
    s
}

/// The lexer: the source text and a scan cursor over its characters.
pub struct Lexer {
    input: String,
    position: usize,
    total: usize,
}

impl Lexer {
    /// The cursor counts characters and never runs past the end.
    pub closed spec fn wf(&self) -> bool {
        self.total == self.input@.len() && self.position <= self.total
    }

    /// The source text, as a sequence of characters.
    pub closed spec fn spec_input(&self) -> Seq<char> {
        self.input@
    }

    /// The scan cursor: how many characters have been consumed.
    pub closed spec fn spec_position(&self) -> int {
        self.position as int
    }

    /// A lexer over `input` with its cursor at the first character.
    pub fn new(input: String) -> (l: Lexer)
        ensures
            l.wf(),
            l.spec_input() == input@,
            l.spec_position() == 0,
    {
        let sz = input.as_str().unicode_len();
        Lexer { input, position: 0, total: sz }
    }

    /// Yields the character under the cursor and advances, or `None`
    /// once the input is exhausted.
    pub fn next_token(&mut self) -> (c: Option<char>)
        requires
            old(self).wf(),
        ensures
            final(self).wf(),
            final(self).spec_input() == old(self).spec_input(),
            old(self).spec_position() < old(self).spec_input().len() ==> {
                &&& c == Some(old(self).spec_input()[old(self).spec_position()])
                &&& final(self).spec_position() == old(self).spec_position() + 1
            },
            old(self).spec_position() >= old(self).spec_input().len() ==> {
                &&& c is None
                &&& final(self).spec_position() == old(self).spec_position()
            },
    {
        if self.position >= self.total {
            None
        } else {
            let ch = self.input.as_str().get_char(self.position);
            self.position = self.position + 1;
            Some(ch)
        }
    }

    /// Scans the rest of the input and yields all its tokens, in input
    /// order: exactly those of `spec_lex` on the unread suffix.
    pub fn lex(&mut self) -> (tokens: Vec<Token>)
        requires
            old(self).wf(),
        ensures
            final(self).wf(),
            final(self).spec_input() == old(self).spec_input(),
            final(self).spec_position() == final(self).spec_input().len(),
            tokens@.map_values(|t: Token| t@) == spec_lex_from(
                old(self).spec_input().skip(old(self).spec_position()),
                Seq::<char>::empty(),
            ),
            old(self).spec_position() == 0 ==> tokens@.map_values(|t: Token| t@) == spec_lex(
                old(self).spec_input(),
            ),
    {
        let mut tokens: Vec<Token> = Vec::new();
        let mut current_token = String::new();
        proof {
            assert(old(self).spec_input().skip(old(self).spec_position()) =~= self.spec_input()
                .skip(self.spec_position()));
        }
        while self.position < self.total
            invariant
                self.wf(),
                self.spec_input() == old(self).spec_input(),
                tokens@.map_values(|t: Token| t@) + spec_lex_from(
                    self.spec_input().skip(self.spec_position()),
                    current_token@,
                ) == spec_lex_from(
                    old(self).spec_input().skip(old(self).spec_position()),
                    Seq::<char>::empty(),
                ),
            decreases self.spec_input().len() - self.spec_position(),
        {
            let ghost pre_rest = self.spec_input().skip(self.spec_position());
            let ghost pre_tokens = tokens@;
            let ghost pre_buf = current_token@;
            let ch_opt = self.next_token();
            let ch = ch_opt.unwrap();
            proof {
                assert(pre_rest[0] == ch);
                assert(pre_rest.drop_first() =~= self.spec_input().skip(self.spec_position()));
            }
            let ghost rest = pre_rest.drop_first();
            if should_break_running_token(&ch, &current_token) {
                let token = identifier_mapper(current_token.as_str());
                tokens.push(token);
                current_token = String::new();
                proof {
                    assert(tokens@.map_values(|t: Token| t@) =~= pre_tokens.map_values(
                        |t: Token| t@,
                    ).push(classify_token(pre_buf)));
                }
                if !is_whitespace_char(ch) {
                    let special_token = special_mapper(&ch);
                    if let Some(t) = special_token {
                        let ghost mid_tokens = tokens@;
                        tokens.push(t);
                        proof {
                            assert(tokens@.map_values(|tk: Token| tk@) =~= mid_tokens.map_values(
                                |tk: Token| tk@,
                            ).push(t@));
                            assert(spec_lex_from(pre_rest, pre_buf) == (seq![
                                classify_token(pre_buf),
                            ].push(t@)) + spec_lex_from(rest, Seq::<char>::empty()));
                            assert(tokens@.map_values(|tk: Token| tk@) + spec_lex_from(
                                rest,
                                current_token@,
                            ) =~= pre_tokens.map_values(|tk: Token| tk@) + spec_lex_from(
                                pre_rest,
                                pre_buf,
                            ));
                        }
                    }
                } else {
                    proof {
                        assert(spec_lex_from(pre_rest, pre_buf) == seq![classify_token(pre_buf)]
                            + spec_lex_from(rest, Seq::<char>::empty()));
                        assert(tokens@.map_values(|t: Token| t@) + spec_lex_from(
                            rest,
                            current_token@,
                        ) =~= pre_tokens.map_values(|t: Token| t@) + spec_lex_from(
                            pre_rest,
                            pre_buf,
                        ));
                    }
                }
            } else {
                if is_whitespace_char(ch) {
                    // whitespace outside a run is discarded; the buffer is
                    // empty here, else the run would have broken
                    proof {
                        assert(pre_buf.len() == 0);
                        assert(spec_lex_from(pre_rest, pre_buf) == Seq::<TokenModel>::empty()
                            + spec_lex_from(rest, Seq::<char>::empty()));
                        assert(current_token@ =~= Seq::<char>::empty());
                        assert(tokens@.map_values(|t: Token| t@) + spec_lex_from(
                            rest,
                            current_token@,
                        ) =~= pre_tokens.map_values(|t: Token| t@) + spec_lex_from(
                            pre_rest,
                            pre_buf,
                        ));
                    }
                } else {
                    let special_token = special_mapper(&ch);
                    if let Some(t) = special_token {
                        tokens.push(t);
                        proof {
                            assert(pre_buf.len() == 0);
                            assert(tokens@.map_values(|tk: Token| tk@) =~= pre_tokens.map_values(
                                |tk: Token| tk@,
                            ).push(t@));
                            assert(spec_lex_from(pre_rest, pre_buf)
                                == Seq::<TokenModel>::empty().push(t@) + spec_lex_from(
                                rest,
                                Seq::<char>::empty(),
                            ));
                            assert(current_token@ =~= Seq::<char>::empty());
                            assert(tokens@.map_values(|tk: Token| tk@) + spec_lex_from(
                                rest,
                                current_token@,
                            ) =~= pre_tokens.map_values(|tk: Token| tk@) + spec_lex_from(
                                pre_rest,
                                pre_buf,
                            ));
                        }
                    } else {
                        push_char(&mut current_token, ch);
                        proof {
                            assert(spec_lex_from(pre_rest, pre_buf) == spec_lex_from(
                                rest,
                                pre_buf.push(ch),
                            ));
                        }
                    }
                }
            }
        }
        proof {
            assert(self.spec_input().skip(self.spec_position()) =~= Seq::<char>::empty());
        }
        if !current_token.as_str().is_empty() {
            let token = identifier_mapper(current_token.as_str());
            let ghost pre_tokens = tokens@;
            tokens.push(token);
            proof {
                assert(tokens@.map_values(|t: Token| t@) =~= pre_tokens.map_values(
                    |t: Token| t@,
                ).push(classify_token(current_token@)));
            }
        }
        proof {
            assert(tokens@.map_values(|t: Token| t@) =~= tokens@.map_values(|t: Token| t@)
                + Seq::<TokenModel>::empty());
            if old(self).spec_position() == 0 {
                assert(old(self).spec_input().skip(0) =~= old(self).spec_input());
            }
        }
        tokens
    }
}

/// Scanning a run of non-breaking characters after the buffered prefix
/// `buf` yields exactly one token: the classification of the whole run.
proof fn lemma_lex_from_nonbreaking(input: Seq<char>, buf: Seq<char>)
    requires
        buf.len() + input.len() > 0,
        forall|i: int| 0 <= i < input.len() ==> !is_breaking(#[trigger] input[i]),
    ensures
        spec_lex_from(input, buf) == seq![classify_token(buf + input)],
    decreases input.len(),
{
    if input.len() == 0 {
        assert(buf + input =~= buf);
    } else {
        assert(!is_breaking(input[0]));
        lemma_lex_from_nonbreaking(input.drop_first(), buf.push(input[0]));
        assert(buf.push(input[0]) + input.drop_first() =~= buf + input);
    }
}

/// A non-empty input with no breaking character lexes to exactly one
/// token, the classification of the whole input.
pub proof fn lemma_lex_single_run(input: Seq<char>)
    requires
        input.len() > 0,
        forall|i: int| 0 <= i < input.len() ==> !is_breaking(#[trigger] input[i]),
    ensures
        spec_lex(input) == seq![classify_token(input)],
{
    lemma_lex_from_nonbreaking(input, Seq::<char>::empty());
    assert(Seq::<char>::empty() + input =~= input);
}

/// A decimal digit is not a breaking character.
proof fn lemma_digit_not_breaking(c: char)
    requires
        is_digit(c),
    ensures
        !is_breaking(c),
{
}

/// An input of only decimal digits lexes to exactly one numeric-literal
/// token whose text is the whole input.
pub proof fn lemma_lex_digits(input: Seq<char>)
    requires
        input.len() > 0,
        all_digits(input),
    ensures
        spec_lex(input) == seq![TokenModel { kind: TokenType::NIDENT, text: input }],
{
    assert forall|i: int| 0 <= i < input.len() implies !is_breaking(#[trigger] input[i]) by {
        lemma_digit_not_breaking(input[i]);
    }
    lemma_lex_single_run(input);
    reveal_strlit("return");
    reveal_strlit("int");
    if input == "return"@ {
        assert(input[0] == 'r');
        assert(false);
    }
    if input == "int"@ {
        assert(input[0] == 'i');
        assert(false);
    }
}

/// A non-empty run of non-breaking characters that is neither a keyword
/// nor all digits lexes to exactly one identifier token.
pub proof fn lemma_lex_identifier_run(input: Seq<char>)
    requires
        input.len() > 0,
        forall|i: int| 0 <= i < input.len() ==> !is_breaking(#[trigger] input[i]),
        !all_digits(input),
        input != "return"@,
        input != "int"@,
    ensures
        spec_lex(input) == seq![TokenModel { kind: TokenType::IDENT, text: input }],
{
    lemma_lex_single_run(input);
}

/// An input of only the seven special characters lexes to one token per
/// character, in input order, each of the matching fixed kind.
pub proof fn lemma_lex_specials(input: Seq<char>)
    requires
        forall|i: int| 0 <= i < input.len() ==> is_special(#[trigger] input[i]),
    ensures
        spec_lex(input).len() == input.len(),
        forall|i: int|
            0 <= i < input.len() ==> special_kind(input[i]) == Some(
                #[trigger] spec_lex(input)[i].kind,
            ) && spec_lex(input)[i].text == seq![input[i]],
    decreases input.len(),
{
    if input.len() > 0 {
        let c = input[0];
        let rest = input.drop_first();
        assert(is_special(c));
        assert(!is_space(c));
        let k = special_kind(c)->Some_0;
        lemma_lex_specials(rest);
        assert(spec_lex(input) == Seq::<TokenModel>::empty().push(
            TokenModel { kind: k, text: seq![c] },
        ) + spec_lex(rest));
        assert(spec_lex(input) =~= seq![TokenModel { kind: k, text: seq![c] }] + spec_lex(rest));
        assert forall|i: int| 0 <= i < input.len() implies special_kind(input[i]) == Some(
            #[trigger] spec_lex(input)[i].kind,
        ) && spec_lex(input)[i].text == seq![input[i]] by {
            if i > 0 {
                assert(spec_lex(input)[i] == spec_lex(rest)[i - 1]);
                assert(input[i] == rest[i - 1]);
            }
        }
    }
}

} // verus!
