//! The lexer: from source text to tokens, one at a time.

use crate::interpreter::text::{
    char_is_alphabetic, char_is_digit, char_is_whitespace, chars_of, is_digit, is_letter,
    is_text, string_of, whitespace,
};
use crate::interpreter::token::{keyword, token_models, Token, TokenModel};
use vstd::prelude::*;

verus! {

/// The first position at or after `from` that holds no white space, or the
/// end of the input.
pub open spec fn skip_whitespace(input: Seq<char>, from: int) -> int
    decreases input.len() - from,
{
    if 0 <= from < input.len() && whitespace(input[from]) {
        skip_whitespace(input, from + 1)
    } else {
        from
    }
}

/// Where the run of letters and underscores that starts at `from` ends.
pub open spec fn identifier_end(input: Seq<char>, from: int) -> int
    decreases input.len() - from,
{
    if 0 <= from < input.len() && is_letter(input[from]) {
        identifier_end(input, from + 1)
    } else {
        from
    }
}

/// Where the run of digits and points that starts at `from` ends.
pub open spec fn number_end(input: Seq<char>, from: int) -> int
    decreases input.len() - from,
{
    if 0 <= from < input.len() && (is_digit(input[from]) || input[from] == '.') {
        number_end(input, from + 1)
    } else {
        from
    }
}

/// The word that starts at `start`: a reserved word or an identifier.
pub open spec fn word(input: Seq<char>, start: int) -> (TokenModel, int) {
    let end = identifier_end(input, start + 1);
    let text = input.subrange(start, end);
    match keyword(text) {
        Some(token) => (token, end),
        None => (TokenModel::Identifier(text), end),
    }
}

/// The numeral that starts at `start`: a float if a point occurs in it, an
/// integer otherwise. The text is delimited, not read.
pub open spec fn numeral(input: Seq<char>, start: int) -> (TokenModel, int) {
    let end = number_end(input, start + 1);
    let text = input.subrange(start, end);
    if text.contains('.') {
        (TokenModel::Float(text), end)
    } else {
        (TokenModel::Int(text), end)
    }
}

/// The token that starts at `start`, a position inside the input that holds no
/// white space, and the position behind it.
pub open spec fn lexeme(input: Seq<char>, start: int) -> (TokenModel, int) {
    let c = input[start];
    let followed_by_equals = start + 1 < input.len() && input[start + 1] == '=';
    if c == ';' {
        (TokenModel::Semicolon, start + 1)
    } else if c == '=' {
        if followed_by_equals {
            (TokenModel::Equal, start + 2)
        } else {
            (TokenModel::Assign, start + 1)
        }
    } else if c == '!' {
        if followed_by_equals {
            (TokenModel::NotEqual, start + 2)
        } else {
            (TokenModel::Bang, start + 1)
        }
    } else if c == '(' {
        (TokenModel::LeftParen, start + 1)
    } else if c == ')' {
        (TokenModel::RightParen, start + 1)
    } else if c == ',' {
        (TokenModel::Comma, start + 1)
    } else if c == '+' {
        (TokenModel::Plus, start + 1)
    } else if c == '-' {
        (TokenModel::Minus, start + 1)
    } else if c == '{' {
        (TokenModel::LeftBrackets, start + 1)
    } else if c == '}' {
        (TokenModel::RightBrackets, start + 1)
    } else if c == '/' {
        (TokenModel::Slash, start + 1)
    } else if c == '*' {
        (TokenModel::Asterisk, start + 1)
    } else if c == '<' {
        (TokenModel::LessThan, start + 1)
    } else if c == '>' {
        (TokenModel::GreaterThan, start + 1)
    } else if is_letter(c) {
        word(input, start)
    } else if is_digit(c) {
        numeral(input, start)
    } else {
        (TokenModel::Illegal, start + 1)
    }
}

/// The next token at or after `from`, and the position behind it: white space
/// is passed over, and the end of the input gives `Eof`.
pub open spec fn scan(input: Seq<char>, from: int) -> (TokenModel, int) {
    let start = skip_whitespace(input, from);
    if start >= input.len() {
        (TokenModel::Eof, start)
    } else {
        lexeme(input, start)
    }
}

/// All tokens from `from` on, up to and including the first `Eof`.
pub open spec fn scan_all(input: Seq<char>, from: int) -> Seq<TokenModel>
    decreases input.len() - from,
    when 0 <= from <= input.len()
    via scan_all_decreases
{
    let (token, next) = scan(input, from);
    if token == TokenModel::Eof {
        seq![token]
    } else {
        seq![token] + scan_all(input, next)
    }
}

#[via_fn]
proof fn scan_all_decreases(input: Seq<char>, from: int) {
    lemma_scan_advances(input, from);
}

proof fn lemma_skip_whitespace_bounds(input: Seq<char>, from: int)
    requires
        0 <= from <= input.len(),
    ensures
        from <= skip_whitespace(input, from) <= input.len(),
    decreases input.len() - from,
{
    if from < input.len() && whitespace(input[from]) {
        lemma_skip_whitespace_bounds(input, from + 1);
    }
}

proof fn lemma_identifier_end_bounds(input: Seq<char>, from: int)
    requires
        0 <= from <= input.len(),
    ensures
        from <= identifier_end(input, from) <= input.len(),
    decreases input.len() - from,
{
    if from < input.len() && is_letter(input[from]) {
        lemma_identifier_end_bounds(input, from + 1);
    }
}

proof fn lemma_number_end_bounds(input: Seq<char>, from: int)
    requires
        0 <= from <= input.len(),
    ensures
        from <= number_end(input, from) <= input.len(),
    decreases input.len() - from,
{
    if from < input.len() && (is_digit(input[from]) || input[from] == '.') {
        lemma_number_end_bounds(input, from + 1);
    }
}

/// Every token but `Eof` takes at least one character, and no token reaches
/// past the end of the input.
pub proof fn lemma_scan_advances(input: Seq<char>, from: int)
    requires
        0 <= from <= input.len(),
    ensures
        from <= scan(input, from).1 <= input.len(),
        scan(input, from).0 != TokenModel::Eof ==> from < scan(input, from).1,
        scan(input, from).0 == TokenModel::Eof ==> scan(input, from).1 == input.len(),
{
    lemma_skip_whitespace_bounds(input, from);
    let start = skip_whitespace(input, from);
    if start < input.len() {
        lemma_identifier_end_bounds(input, start + 1);
        lemma_number_end_bounds(input, start + 1);
        lemma_keywords_are_not_eof(input.subrange(start, identifier_end(input, start + 1)));
    }
}

proof fn lemma_keywords_are_not_eof(text: Seq<char>)
    ensures
        keyword(text) != Some(TokenModel::Eof),
{
}

/// Once the end of the input is reached, every further token is `Eof`.
pub proof fn lemma_eof_repeats(input: Seq<char>, from: int)
    requires
        0 <= from <= input.len(),
        scan(input, from).0 == TokenModel::Eof,
    ensures
        scan(input, scan(input, from).1) == scan(input, from),
{
    lemma_scan_advances(input, from);
}

/// The tokens of a text end in `Eof`, and hold no other `Eof`.
pub proof fn lemma_tokens_end_in_one_eof(input: Seq<char>, from: int)
    requires
        0 <= from <= input.len(),
    ensures
        scan_all(input, from).len() > 0,
        scan_all(input, from).last() == TokenModel::Eof,
        forall|i: int|
            0 <= i < scan_all(input, from).len() - 1 ==> #[trigger] scan_all(input, from)[i]
                != TokenModel::Eof,
    decreases input.len() - from,
{
    let (token, next) = scan(input, from);
    lemma_scan_advances(input, from);
    if token != TokenModel::Eof {
        lemma_tokens_end_in_one_eof(input, next);
        let rest = scan_all(input, next);
        let all = scan_all(input, from);
        assert(all == seq![token] + rest);
        assert(all.last() == rest.last());
        assert forall|i: int| 0 <= i < all.len() - 1 implies #[trigger] all[i]
            != TokenModel::Eof by {
            if i > 0 {
                assert(all[i] == rest[i - 1]);
            }
        }
    }
}

/// A cursor over the characters of a source text.
pub struct Lexer {
    input: Vec<char>,
    position: usize,
}

impl Lexer {
    #[verifier::type_invariant]
    spec fn well_formed(self) -> bool {
        self.position <= self.input.len()
    }

    /// The text that the lexer reads.
    pub closed spec fn source(&self) -> Seq<char> {
        self.input@
    }

    /// How many characters have been consumed.
    pub closed spec fn cursor(&self) -> int {
        self.position as int
    }

    /// A lexer at the start of `input`.
    pub fn new(input: &str) -> (lexer: Lexer)
        ensures
            lexer.source() == input@,
            lexer.cursor() == 0,
    {
        Lexer { input: chars_of(input), position: 0 }
    }

    /// Consumes one token and returns it. White space is skipped; at the end
    /// of the input the answer is `Eof`, again and again.
    pub fn next_token(&mut self) -> (token: Token)
        ensures
            final(self).source() == old(self).source(),
            (token@, final(self).cursor()) == scan(old(self).source(), old(self).cursor()),
            0 <= old(self).cursor() <= final(self).cursor() <= final(self).source().len(),
    {
        proof {
            use_type_invariant(&*self);
            lemma_scan_advances(self.source(), self.cursor());
        }
        self.read_whitespace();
        proof {
            use_type_invariant(&*self);
        }
        if self.position >= self.input.len() {
            return Token::Eof;
        }
        let start = self.position;
        let c = self.input[start];
        let followed_by_equals = start + 1 < self.input.len() && self.input[start + 1] == '=';
        self.position = start + 1;
        if c == ';' {
            Token::Semicolon
        } else if c == '=' {
            if followed_by_equals {
                self.position = start + 2;
                Token::Equal
            } else {
                Token::Assign
            }
        } else if c == '!' {
            if followed_by_equals {
                self.position = start + 2;
                Token::NotEqual
            } else {
                Token::Bang
            }
        } else if c == '(' {
            Token::LeftParen
        } else if c == ')' {
            Token::RightParen
        } else if c == ',' {
            Token::Comma
        } else if c == '+' {
            Token::Plus
        } else if c == '-' {
            Token::Minus
        } else if c == '{' {
            Token::LeftBrackets
        } else if c == '}' {
            Token::RightBrackets
        } else if c == '/' {
            Token::Slash
        } else if c == '*' {
            Token::Asterisk
        } else if c == '<' {
            Token::LessThan
        } else if c == '>' {
            Token::GreaterThan
        } else if self.is_letter(c) {
            let identifier = self.read_identifier(start);
            // Match against the reserved words.
            if is_text(&identifier, "func") {
                Token::Function
            } else if is_text(&identifier, "let") {
                Token::Let
            } else if is_text(&identifier, "true") {
                Token::True
            } else if is_text(&identifier, "false") {
                Token::False
            } else if is_text(&identifier, "if") {
                Token::If
            } else if is_text(&identifier, "else") {
                Token::Else
            } else if is_text(&identifier, "return") {
                Token::Return
            } else {
                Token::Identifier(identifier)
            }
        } else if char_is_digit(c) {
            self.read_number(start)
        } else {
            Token::Illegal
        }
    }

    /// All tokens that are left, up to and including the first `Eof`.
    pub fn remaining_tokens(&mut self) -> (tokens: Vec<Token>)
        ensures
            final(self).source() == old(self).source(),
            final(self).cursor() == old(self).source().len(),
            token_models(tokens@) == scan_all(
                old(self).source(),
                old(self).cursor(),
            ),
    {
        let mut tokens: Vec<Token> = Vec::new();
        let ghost input = self.source();
        let ghost from = self.cursor();
        proof {
            use_type_invariant(&*self);
        }
        proof {
            assert(token_models(tokens@) + scan_all(input, from) =~= scan_all(input, from));
        }
        loop
            invariant_except_break
                scan_all(input, from) == token_models(tokens@) + scan_all(input, self.cursor()),
            invariant
                self.source() == input,
                0 <= self.cursor() <= input.len(),
                0 <= from <= input.len(),
            ensures
                self.source() == input,
                self.cursor() == input.len(),
                token_models(tokens@) == scan_all(input, from),
            decreases input.len() - self.cursor(),
        {
            let ghost before = self.cursor();
            let ghost collected = token_models(tokens@);
            let token = self.next_token();
            proof {
                lemma_scan_advances(input, before);
            }
            let done = token.same(&Token::Eof);
            tokens.push(token);
            proof {
                let now = token_models(tokens@);
                assert(now =~= collected + seq![token@]);
                if done {
                    assert(scan_all(input, before) == seq![token@]);
                    assert(now == scan_all(input, from));
                } else {
                    assert(scan_all(input, before) == seq![token@] + scan_all(
                        input,
                        self.cursor(),
                    ));
                    assert(collected + (seq![token@] + scan_all(input, self.cursor())) =~= now
                        + scan_all(input, self.cursor()));
                }
            }
            if done {
                break ;
            }
        }
        tokens
    }

    fn is_letter(&self, c: char) -> (r: bool)
        ensures
            r == is_letter(c),
    {
        char_is_alphabetic(c) || c == '_'
    }

    fn read_identifier(&mut self, start: usize) -> (identifier: String)
        requires
            start < old(self).cursor() <= old(self).source().len(),
        ensures
            final(self).source() == old(self).source(),
            final(self).cursor() == identifier_end(old(self).source(), old(self).cursor()),
            identifier@ == old(self).source().subrange(start as int, final(self).cursor()),
    {
        proof {
            use_type_invariant(&*self);
        }
        while self.position < self.input.len() && self.is_letter(self.input[self.position as usize])
            invariant
                self.input@ == old(self).input@,
                old(self).position <= self.position <= self.input.len(),
                identifier_end(self.input@, self.position as int) == identifier_end(
                    old(self).input@,
                    old(self).position as int,
                ),
            decreases self.input.len() - self.position,
        {
            self.position = self.position + 1;
        }
        string_of(&self.input, start, self.position)
    }

    fn read_number(&mut self, start: usize) -> (token: Token)
        requires
            start + 1 == old(self).cursor() <= old(self).source().len(),
            is_digit(old(self).source()[start as int]),
        ensures
            final(self).source() == old(self).source(),
            (token@, final(self).cursor()) == numeral(old(self).source(), start as int),
    {
        proof {
            use_type_invariant(&*self);
        }
        let mut is_floating_point = false;
        proof {
            let first = self.input@.subrange(start as int, start + 1);
            assert(forall|k: int| 0 <= k < first.len() ==> first[k] != '.');
        }
        while self.position < self.input.len() && (char_is_digit(self.input[self.position as usize])
            || self.input[self.position as usize] == '.')
            invariant
                self.input@ == old(self).input@,
                start + 1 == old(self).position,
                old(self).position <= self.position <= self.input.len(),
                number_end(self.input@, self.position as int) == number_end(
                    old(self).input@,
                    old(self).position as int,
                ),
                is_floating_point == self.input@.subrange(
                    start as int,
                    self.position as int,
                ).contains('.'),
            decreases self.input.len() - self.position,
        {
            let ghost before = self.input@.subrange(start as int, self.position as int);
            let c = self.input[self.position];
            self.position = self.position + 1;
            proof {
                let after = self.input@.subrange(start as int, self.position as int);
                assert(after =~= before.push(c));
                if c == '.' {
                    assert(after[after.len() - 1] == '.');
                }
                if before.contains('.') {
                    let k = choose|k: int| 0 <= k < before.len() && before[k] == '.';
                    assert(after[k] == '.');
                }
                if after.contains('.') && c != '.' {
                    let k = choose|k: int| 0 <= k < after.len() && after[k] == '.';
                    assert(before[k] == '.');
                }
            }
            if c == '.' {
                is_floating_point = true;
            }
        }
        let text = string_of(&self.input, start, self.position);
        if is_floating_point {
            Token::Float(text)
        } else {
            Token::Int(text)
        }
    }

    fn read_whitespace(&mut self)
        ensures
            final(self).source() == old(self).source(),
            final(self).cursor() == skip_whitespace(old(self).source(), old(self).cursor()),
    {
        proof {
            use_type_invariant(&*self);
        }
        while self.position < self.input.len() && char_is_whitespace(
            self.input[self.position as usize],
        )
            invariant
                self.input@ == old(self).input@,
                self.position <= self.input.len(),
                skip_whitespace(self.input@, self.position as int) == skip_whitespace(
                    old(self).input@,
                    old(self).position as int,
                ),
            decreases self.input.len() - self.position,
        {
            self.position = self.position + 1;
        }
    }
}

} // verus!
