//! The lexer: turns source text into a token stream. The token grammar is
//! the library's own: brackets and semicolons, identifiers, decimal integer
//! literals, and the operator spellings of the expression language, with
//! longest-match runs for identifiers and integers and a fixed priority
//! order for the operator forms.

use vstd::prelude::*;

use crate::text::is_digit;

verus! {

/// The kind of a token.
#[derive(Debug, Clone, Copy, PartialEq, Eq, Structural)]
pub enum TokenType {
    PARENTH,
    SEMICOLON,
    IDENT,
    INT,
    OPER,
}

/// The view of a token: its kind and its text.
pub type TokenV = (TokenType, Seq<char>);

/// One token: its kind and the text it was read from.
#[derive(Debug, Clone)]
pub struct Token {
    token_type: TokenType,
    text: String,
}

impl View for Token {
    type V = TokenV;

    closed spec fn view(&self) -> TokenV {
        (self.token_type, self.text@)
    }
}

impl Token {
    /// The token's text.
    pub fn text(&self) -> (r: &str)
        ensures
            r@ == self@.1,
    {
        self.text.as_str()
    }

    /// The token's kind.
    pub fn token_type(&self) -> (r: &TokenType)
        ensures
            *r == self@.0,
    {
        &self.token_type
    }
}

/// A fault of the lexer: text that starts no token.
#[derive(Debug)]
pub struct LexError {
    text: String,
}

impl LexError {
    /// The error's message.
    pub closed spec fn spec_text(&self) -> Seq<char> {
        self.text@
    }

    fn new(msg: &str) -> (e: LexError)
        ensures
            e.spec_text() == msg@,
    {
        LexError { text: msg.to_owned() }
    }

    /// The error's message.
    pub fn message(&self) -> (r: &str)
        ensures
            r@ == self.spec_text(),
    {
        self.text.as_str()
    }
}

/// Whether `c` is skipped between tokens.
pub open spec fn is_whitespace(c: char) -> bool {
    c == '\n' || c == '\t' || c == ' '
}

/// Whether `c` is an ASCII letter.
pub open spec fn is_alpha(c: char) -> bool {
    ('a' <= c && c <= 'z') || ('A' <= c && c <= 'Z')
}

/// Whether `c` may continue an identifier: a letter, a digit or `_`.
pub open spec fn is_word_char(c: char) -> bool {
    is_alpha(c) || is_digit(c) || c == '_'
}

/// Whether `c` is one of the single-character operator spellings that win
/// over every two-character form.
pub open spec fn is_prime_oper_char(c: char) -> bool {
    c == '-' || c == '~' || c == '!' || c == '+' || c == '*' || c == '/'
}

/// The longest prefix of `s` made of word characters.
pub open spec fn word_run_len(s: Seq<char>) -> int
    decreases s.len(),
{
    if s.len() > 0 && is_word_char(s[0]) {
        1 + word_run_len(s.drop_first())
    } else {
        0
    }
}

/// The longest prefix of `s` made of digits.
pub open spec fn digit_run_len(s: Seq<char>) -> int
    decreases s.len(),
{
    if s.len() > 0 && is_digit(s[0]) {
        1 + digit_run_len(s.drop_first())
    } else {
        0
    }
}

proof fn lemma_word_run_le(s: Seq<char>)
    ensures
        0 <= word_run_len(s) <= s.len(),
    decreases s.len(),
{
    if s.len() > 0 && is_word_char(s[0]) {
        lemma_word_run_le(s.drop_first());
    }
}

proof fn lemma_digit_run_le(s: Seq<char>)
    ensures
        0 <= digit_run_len(s) <= s.len(),
    decreases s.len(),
{
    if s.len() > 0 && is_digit(s[0]) {
        lemma_digit_run_le(s.drop_first());
    }
}

/// A scanned word run is the word run: if the first `k` characters are
/// word characters and the run stops there, `k` is the run length.
proof fn lemma_word_run_exact(s: Seq<char>, k: int)
    requires
        0 <= k <= s.len(),
        forall|t: int| 0 <= t < k ==> is_word_char(#[trigger] s[t]),
        k == s.len() || !is_word_char(s[k]),
    ensures
        word_run_len(s) == k,
    decreases k,
{
    if k == 0 {
    } else {
        assert(is_word_char(s[0]));
        lemma_word_run_exact(s.drop_first(), k - 1);
    }
}

/// A scanned digit run is the digit run.
proof fn lemma_digit_run_exact(s: Seq<char>, k: int)
    requires
        0 <= k <= s.len(),
        forall|t: int| 0 <= t < k ==> is_digit(#[trigger] s[t]),
        k == s.len() || !is_digit(s[k]),
    ensures
        digit_run_len(s) == k,
    decreases k,
{
    if k == 0 {
    } else {
        assert(is_digit(s[0]));
        lemma_digit_run_exact(s.drop_first(), k - 1);
    }
}

/// The token starting at the head of `s`: its kind and length, or nothing
/// when no token form matches. Bracket, semicolon, identifier and integer
/// forms come first; among operators the single-character spellings
/// `- ~ ! + * /` win, then the two-character `&&`, `||` and `==`, then the
/// single characters `<`, `>` and `=` — so `<=`, `>=` and `!=` lex as two
/// tokens.
pub open spec fn head_token(s: Seq<char>) -> Option<(TokenType, int)> {
    if s.len() == 0 {
        None
    } else if s[0] == '{' || s[0] == '}' || s[0] == '(' || s[0] == ')' {
        Some((TokenType::PARENTH, 1))
    } else if s[0] == ';' {
        Some((TokenType::SEMICOLON, 1))
    } else if is_alpha(s[0]) {
        Some((TokenType::IDENT, 1 + word_run_len(s.drop_first())))
    } else if is_digit(s[0]) {
        Some((TokenType::INT, 1 + digit_run_len(s.drop_first())))
    } else if is_prime_oper_char(s[0]) {
        Some((TokenType::OPER, 1))
    } else if s.len() >= 2 && s[0] == '&' && s[1] == '&' {
        Some((TokenType::OPER, 2))
    } else if s.len() >= 2 && s[0] == '|' && s[1] == '|' {
        Some((TokenType::OPER, 2))
    } else if s.len() >= 2 && s[0] == '=' && s[1] == '=' {
        Some((TokenType::OPER, 2))
    } else if s[0] == '<' || s[0] == '>' || s[0] == '=' {
        Some((TokenType::OPER, 1))
    } else {
        None
    }
}

proof fn lemma_head_token_bounds(s: Seq<char>)
    ensures
        head_token(s) matches Some((t, n)) ==> 1 <= n <= s.len(),
{
    lemma_word_run_le(s.drop_first());
    lemma_digit_run_le(s.drop_first());
}

/// The token stream of `s`: whitespace is skipped, then the head token is
/// read, repeatedly; text at which no token starts fails the whole lex.
pub open spec fn lex_spec(s: Seq<char>) -> Option<Seq<TokenV>>
    decreases s.len(),
{
    if s.len() == 0 {
        Some(Seq::empty())
    } else if is_whitespace(s[0]) {
        lex_spec(s.drop_first())
    } else {
        match head_token(s) {
            None => None,
            Some((tt, n)) => {
                if 1 <= n <= s.len() {
                    match lex_spec(s.skip(n)) {
                        None => None,
                        Some(rest) => Some(seq![(tt, s.take(n))] + rest),
                    }
                } else {
                    None
                }
            },
        }
    }
}

/// The views of a token vector.
pub open spec fn tokens_view(ts: Seq<Token>) -> Seq<TokenV> {
    ts.map(|i: int, t: Token| t@)
}

/// Whether the character at `j` may continue an identifier.
fn is_word_at(s: &str, j: usize) -> (b: bool)
    requires
        j < s@.len(),
    ensures
        b == is_word_char(s@[j as int]),
{
    let d = s.get_char(j);
    (d >= 'a' && d <= 'z') || (d >= 'A' && d <= 'Z') || (d >= '0' && d <= '9') || d == '_'
}

/// Whether the character at `j` is a decimal digit.
fn is_digit_at(s: &str, j: usize) -> (b: bool)
    requires
        j < s@.len(),
    ensures
        b == is_digit(s@[j as int]),
{
    let d = s.get_char(j);
    d >= '0' && d <= '9'
}

/// Tokenizes `text_in`. Succeeds with the token stream exactly when the
/// text lexes; fails exactly when some position past the skipped
/// whitespace starts no token.
#[verifier::rlimit(60)]
pub fn lex(text_in: &str) -> (r: Result<Vec<Token>, LexError>)
    ensures
        match r {
            Ok(v) => lex_spec(text_in@) == Some(tokens_view(v@)),
            Err(_) => lex_spec(text_in@) is None,
        },
{
    let ghost s = text_in@;
    let len = text_in.unicode_len();
    let mut out: Vec<Token> = Vec::new();
    let mut i: usize = 0;
    proof {
        assert(tokens_view(out@) =~= Seq::<TokenV>::empty());
        assert(s.skip(0) =~= s);
    }
    #[verifier::loop_isolation(false)]
    while i < len
        invariant
            0 <= i <= len,
            len == s.len(),
            lex_spec(s) == (match lex_spec(s.skip(i as int)) {
                None => None::<Seq<TokenV>>,
                Some(rest) => Some(tokens_view(out@) + rest),
            }),
        decreases len - i,
    {
        let ghost tail = s.skip(i as int);
        proof {
            assert(tail[0] == s[i as int]);
            assert(tail.drop_first() =~= s.skip(i as int + 1));
        }
        let c = text_in.get_char(i);
        if c == '\n' || c == '\t' || c == ' ' {
            i = i + 1;
            continue ;
        }
        let (token_type, token_len): (TokenType, usize) = if c == '{' || c == '}' || c == '('
            || c == ')' {
            (TokenType::PARENTH, 1)
        } else if c == ';' {
            (TokenType::SEMICOLON, 1)
        } else if (c >= 'a' && c <= 'z') || (c >= 'A' && c <= 'Z') {
            let mut j = i + 1;
            #[verifier::loop_isolation(false)]
            while j < len && is_word_at(text_in, j)
                invariant
                    i < j <= len,
                    forall|t: int| i < t < j ==> is_word_char(#[trigger] s[t]),
                decreases len - j,
            {
                j = j + 1;
            }
            proof {
                assert forall|t: int| 0 <= t < j - (i as int + 1) implies is_word_char(
                    #[trigger] s.skip(i as int + 1)[t],
                ) by {
                    assert(s.skip(i as int + 1)[t] == s[i as int + 1 + t]);
                }
                lemma_word_run_exact(s.skip(i as int + 1), j - (i as int + 1));
            }
            (TokenType::IDENT, j - i)
        } else if c >= '0' && c <= '9' {
            let mut j = i + 1;
            #[verifier::loop_isolation(false)]
            while j < len && is_digit_at(text_in, j)
                invariant
                    i < j <= len,
                    forall|t: int| i < t < j ==> is_digit(#[trigger] s[t]),
                decreases len - j,
            {
                j = j + 1;
            }
            proof {
                assert forall|t: int| 0 <= t < j - (i as int + 1) implies is_digit(
                    #[trigger] s.skip(i as int + 1)[t],
                ) by {
                    assert(s.skip(i as int + 1)[t] == s[i as int + 1 + t]);
                }
                lemma_digit_run_exact(s.skip(i as int + 1), j - (i as int + 1));
            }
            (TokenType::INT, j - i)
        } else if c == '-' || c == '~' || c == '!' || c == '+' || c == '*' || c == '/' {
            (TokenType::OPER, 1)
        } else if c == '&' && i + 1 < len && text_in.get_char(i + 1) == '&' {
            proof {
                assert(tail[1] == s[i as int + 1]);
            }
            (TokenType::OPER, 2)
        } else if c == '|' && i + 1 < len && text_in.get_char(i + 1) == '|' {
            proof {
                assert(tail[1] == s[i as int + 1]);
            }
            (TokenType::OPER, 2)
        } else if c == '=' && i + 1 < len && text_in.get_char(i + 1) == '=' {
            proof {
                assert(tail[1] == s[i as int + 1]);
            }
            (TokenType::OPER, 2)
        } else if c == '<' || c == '>' || c == '=' {
            (TokenType::OPER, 1)
        } else {
            proof {
                if tail.len() >= 2 {
                    assert(tail[1] == s[i as int + 1]);
                }
                assert(head_token(tail) is None);
            }
            let rest = text_in.substring_char(i, len);
            let mut msg = String::new();
            msg.append("Unknown token at '");
            msg.append(rest);
            msg.append("'");
            return Err(LexError::new(msg.as_str()));
        };
        proof {
            assert(head_token(tail) == Some((token_type, token_len as int)));
            lemma_head_token_bounds(tail);
            assert(tail.skip(token_len as int) =~= s.skip(i as int + token_len as int));
            assert(tail.take(token_len as int) =~= s.subrange(
                i as int,
                i as int + token_len as int,
            ));
        }
        let token_text = text_in.substring_char(i, i + token_len);
        let ghost prev_out = out@;
        out.push(Token { token_type, text: token_text.to_owned() });
        proof {
            let ghost chunk = s.subrange(i as int, i as int + token_len as int);
            assert(tokens_view(out@) =~= tokens_view(prev_out) + seq![(token_type, chunk)]);
            match lex_spec(s.skip(i as int + token_len as int)) {
                None => {
                    assert(lex_spec(tail) is None);
                },
                Some(r2) => {
                    assert(lex_spec(tail) == Some(seq![(token_type, chunk)] + r2));
                    assert(tokens_view(out@) + r2 =~= tokens_view(prev_out) + (seq![
                        (token_type, chunk),
                    ] + r2));
                },
            }
        }
        i = i + token_len;
    }
    proof {
        assert(s.skip(len as int) =~= Seq::<char>::empty());
        assert(tokens_view(out@) + Seq::<TokenV>::empty() =~= tokens_view(out@));
    }
    Ok(out)
}

} // verus!
