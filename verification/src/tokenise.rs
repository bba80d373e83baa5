//! The tokenizer: turns raw source characters into a flat ordered sequence of
//! tokens.
//!
//! Comparison symbols and math symbols are re-ordered ahead of the token
//! emitted just before them, so that an infix source form arrives at the
//! parser in the prefix form its grammar expects. A `+` or `-` immediately
//! followed by a digit is folded into the following numeric literal as its
//! sign. `spec_tokenise` is the exact model of this process.

use vstd::prelude::*;

use crate::text::{
    all_digits, chars_to_string, digits_val, is_digit, is_digit_char, push_char, read_i32, str_eq,
};

verus! {

/// A lexical token. `Float` carries the literal text unchanged: the core
/// never interprets floating literals, it only carries them through.
#[derive(Debug, Clone, PartialEq, Eq)]
pub enum Token {
    Int(i32),
    Float(String),
    CharValue(char),
    StringValue(String),
    StringLiteral(String),
    Keyword(String),
    Punctuation(char),
    MathSymbol(String),
}

/// The mathematical model of a token: the same shape over `Seq<char>`.
pub enum SpecToken {
    Int(i32),
    Float(Seq<char>),
    CharValue(char),
    StringValue(Seq<char>),
    StringLiteral(Seq<char>),
    Keyword(Seq<char>),
    Punctuation(char),
    MathSymbol(Seq<char>),
}

impl View for Token {
    type V = SpecToken;

    open spec fn view(&self) -> SpecToken {
        match self {
            Token::Int(v) => SpecToken::Int(*v),
            Token::Float(t) => SpecToken::Float(t@),
            Token::CharValue(c) => SpecToken::CharValue(*c),
            Token::StringValue(t) => SpecToken::StringValue(t@),
            Token::StringLiteral(t) => SpecToken::StringLiteral(t@),
            Token::Keyword(t) => SpecToken::Keyword(t@),
            Token::Punctuation(c) => SpecToken::Punctuation(*c),
            Token::MathSymbol(t) => SpecToken::MathSymbol(t@),
        }
    }
}

/// The token sequence seen at the model level.
pub open spec fn view_tokens(ts: Seq<Token>) -> Seq<SpecToken> {
    Seq::new(ts.len(), |i: int| ts[i]@)
}

pub broadcast proof fn lemma_view_tokens_push(ts: Seq<Token>, t: Token)
    ensures
        view_tokens(#[trigger] ts.push(t)) == view_tokens(ts).push(t@),
{
    assert(view_tokens(ts.push(t)) =~= view_tokens(ts).push(t@));
}

impl Token {
    /// The bareword text of the token, when it is one.
    pub fn extract_string_literal(&self) -> (r: Option<String>)
        ensures
            match self@ {
                SpecToken::StringLiteral(t) => r matches Option::Some(x) && x@ == t,
                _ => r is None,
            },
    {
        match self {
            Token::StringLiteral(a) => Option::Some(a.clone()),
            _ => Option::None,
        }
    }
}

/// A lexical fault, each holding exactly when its sentence says.
#[derive(Debug, Clone, PartialEq, Eq)]
pub enum LexError {
    /// A character outside every recognised class.
    UnrecognisedChar(char),
    /// A numeric literal holding more than one decimal point.
    MalformedNumber,
    /// An integer literal outside the 32-bit signed range.
    IntOutOfRange,
    /// A character literal without its closing quote.
    UnterminatedCharLiteral,
    /// A quoted string without its closing quote.
    UnterminatedStringLiteral,
    /// A `/` that does not begin a `//` comment.
    StraySlash,
    /// A math or comparison symbol with no token before it to reorder past.
    LeadingSymbol,
    /// A math symbol as the very last character of the input.
    SymbolAtEnd,
}

/// Whether `s` is one of the fixed keywords.
pub open spec fn spec_is_keyword(s: Seq<char>) -> bool {
    ||| s == "int"@
    ||| s == "void"@
    ||| s == "char"@
    ||| s == "return"@
    ||| s == "if"@
}

pub fn is_keyword(s: &str) -> (r: bool)
    ensures
        r == spec_is_keyword(s@),
{
    str_eq(s, "int") || str_eq(s, "void") || str_eq(s, "char") || str_eq(s, "return") || str_eq(
        s,
        "if",
    )
}

/// Whether `c` may appear in a bareword: a lowercase letter or underscore.
pub open spec fn spec_is_str_literal_char(c: char) -> bool {
    (97 <= c as u32 && c as u32 <= 122) || c as u32 == 95
}

pub fn is_str_literal_char(c: char) -> (r: bool)
    ensures
        r == spec_is_str_literal_char(c),
{
    let u = c as u32;
    (97 <= u && u <= 122) || u == 95
}

/// Whether `c` is single-character punctuation.
pub open spec fn spec_is_punc_char(c: char) -> bool {
    ||| c == '('
    ||| c == ')'
    ||| c == ';'
    ||| c == ','
    ||| c == '['
    ||| c == ']'
    ||| c == '{'
    ||| c == '}'
    ||| c == '='
    ||| c == '&'
    ||| c == '*'
}

pub fn is_punc_char(c: char) -> (r: bool)
    ensures
        r == spec_is_punc_char(c),
{
    c == '(' || c == ')' || c == ';' || c == ',' || c == '[' || c == ']' || c == '{' || c == '}'
        || c == '=' || c == '&' || c == '*'
}

/// Whether `c` is a math symbol character.
pub open spec fn spec_is_math_char(c: char) -> bool {
    c == '+' || c == '-' || c == '<' || c == '>'
}

pub fn is_math_char(c: char) -> (r: bool)
    ensures
        r == spec_is_math_char(c),
{
    c == '+' || c == '-' || c == '<' || c == '>'
}

/// Whitespace recognised and discarded between tokens.
pub open spec fn spec_is_whitespace_char(c: char) -> bool {
    c == ' ' || c == '\t' || c == '\n' || c == '\r'
}

pub fn is_whitespace_char(c: char) -> (r: bool)
    ensures
        r == spec_is_whitespace_char(c),
{
    c == ' ' || c == '\t' || c == '\n' || c == '\r'
}

/// Whether `c` may appear in a numeric literal run.
pub open spec fn is_num_char(c: char) -> bool {
    is_digit_char(c) || c == '.'
}

/// The first position at or after `i` whose character is not a bareword
/// character (or the end of input).
pub open spec fn ident_end(s: Seq<char>, i: int) -> int
    decreases s.len() - i,
{
    if i < s.len() && spec_is_str_literal_char(s[i]) {
        ident_end(s, i + 1)
    } else {
        i
    }
}

pub proof fn lemma_ident_end(s: Seq<char>, i: int)
    requires
        0 <= i <= s.len(),
    ensures
        i <= ident_end(s, i) <= s.len(),
    decreases s.len() - i,
{
    if i < s.len() && spec_is_str_literal_char(s[i]) {
        lemma_ident_end(s, i + 1);
    }
}

/// The first position at or after `i` whose character is not a digit or a
/// decimal point (or the end of input).
pub open spec fn num_end(s: Seq<char>, i: int) -> int
    decreases s.len() - i,
{
    if i < s.len() && is_num_char(s[i]) {
        num_end(s, i + 1)
    } else {
        i
    }
}

pub proof fn lemma_num_end(s: Seq<char>, i: int)
    requires
        0 <= i <= s.len(),
    ensures
        i <= num_end(s, i) <= s.len(),
        forall|k: int| i <= k < num_end(s, i) ==> is_num_char(#[trigger] s[k]),
    decreases s.len() - i,
{
    if i < s.len() && is_num_char(s[i]) {
        lemma_num_end(s, i + 1);
    }
}

/// The position of the closing quote of a string value scanned from `i`,
/// where a backslash escapes the character after it; the end of input when
/// there is none.
pub open spec fn str_end(s: Seq<char>, i: int) -> int
    decreases s.len() - i,
{
    if i >= s.len() {
        s.len() as int
    } else if s[i] == '"' {
        i
    } else if s[i] == '\\' {
        if i + 2 <= s.len() {
            str_end(s, i + 2)
        } else {
            s.len() as int
        }
    } else {
        str_end(s, i + 1)
    }
}

pub proof fn lemma_str_end(s: Seq<char>, i: int)
    requires
        0 <= i <= s.len(),
    ensures
        i <= str_end(s, i) <= s.len(),
    decreases s.len() - i,
{
    if i < s.len() && s[i] != '"' {
        if s[i] == '\\' {
            if i + 2 <= s.len() {
                lemma_str_end(s, i + 2);
            }
        } else {
            lemma_str_end(s, i + 1);
        }
    }
}

/// The position just after the newline that ends a line comment scanned from
/// `i`; the end of input when there is none.
pub open spec fn line_end(s: Seq<char>, i: int) -> int
    decreases s.len() - i,
{
    if i >= s.len() {
        s.len() as int
    } else if s[i] == '\n' {
        i + 1
    } else {
        line_end(s, i + 1)
    }
}

pub proof fn lemma_line_end(s: Seq<char>, i: int)
    requires
        0 <= i <= s.len(),
    ensures
        i <= line_end(s, i) <= s.len(),
    decreases s.len() - i,
{
    if i < s.len() && s[i] != '\n' {
        lemma_line_end(s, i + 1);
    }
}

/// The number of decimal points in `t`.
pub open spec fn dot_count(t: Seq<char>) -> nat
    decreases t.len(),
{
    if t.len() == 0 {
        0
    } else {
        dot_count(t.drop_last()) + if t.last() == '.' {
            1nat
        } else {
            0nat
        }
    }
}

pub proof fn lemma_dot_count_zero(t: Seq<char>)
    requires
        dot_count(t) == 0,
    ensures
        forall|j: int| 0 <= j < t.len() ==> t[j] != '.',
    decreases t.len(),
{
    if t.len() > 0 {
        lemma_dot_count_zero(t.drop_last());
        assert(forall|j: int|
            0 <= j < t.len() - 1 ==> t[j] == t.drop_last()[j]);
    }
}

/// The model of a numeric literal token whose digit run starts at `i`, with
/// `neg` telling whether a folded minus sign precedes it. The run ends at
/// `num_end(s, i)`.
pub open spec fn number_token(s: Seq<char>, i: int, neg: bool) -> Result<SpecToken, LexError> {
    let body = s.subrange(i, num_end(s, i));
    let dots = dot_count(body);
    if dots == 1 {
        Ok(
            SpecToken::Float(
                if neg {
                    seq!['-'] + body
                } else {
                    body
                },
            ),
        )
    } else if dots > 1 {
        Err(LexError::MalformedNumber)
    } else {
        let m = digits_val(body);
        if neg {
            if m > 0x8000_0000 {
                Err(LexError::IntOutOfRange)
            } else {
                Ok(SpecToken::Int((-(m as int)) as i32))
            }
        } else {
            if m > 0x7fff_ffff {
                Err(LexError::IntOutOfRange)
            } else {
                Ok(SpecToken::Int(m as i32))
            }
        }
    }
}

/// The model of the tokenizer from position `i` onward, with `acc` the
/// tokens already emitted (symbol reordering edits the last of them).
pub open spec fn spec_tokenise_from(s: Seq<char>, i: int, acc: Seq<SpecToken>) -> Result<
    Seq<SpecToken>,
    LexError,
>
    decreases s.len() - i,
        when 0 <= i <= s.len()
        via spec_tokenise_from_decreases
{
    if i >= s.len() {
        Ok(acc)
    } else {
        let c = s[i];
        if spec_is_punc_char(c) {
            if c == '=' && i + 1 < s.len() && s[i + 1] == '=' {
                if acc.len() == 0 {
                    Err(LexError::LeadingSymbol)
                } else {
                    spec_tokenise_from(
                        s,
                        i + 2,
                        acc.drop_last().push(SpecToken::MathSymbol("=="@)).push(acc.last()),
                    )
                }
            } else {
                spec_tokenise_from(s, i + 1, acc.push(SpecToken::Punctuation(c)))
            }
        } else if spec_is_str_literal_char(c) {
            let j = ident_end(s, i);
            let w = s.subrange(i, j);
            let t = if spec_is_keyword(w) {
                SpecToken::Keyword(w)
            } else {
                SpecToken::StringLiteral(w)
            };
            spec_tokenise_from(s, j, acc.push(t))
        } else if is_digit_char(c) {
            match number_token(s, i, false) {
                Ok(t) => spec_tokenise_from(s, num_end(s, i), acc.push(t)),
                Err(e) => Err(e),
            }
        } else if spec_is_math_char(c) {
            if i + 1 >= s.len() {
                Err(LexError::SymbolAtEnd)
            } else if (c == '+' || c == '-') && is_digit_char(s[i + 1]) {
                match number_token(s, i + 1, c == '-') {
                    Ok(t) => spec_tokenise_from(s, num_end(s, i + 1), acc.push(t)),
                    Err(e) => Err(e),
                }
            } else {
                let two = (c == '<' || c == '>') && s[i + 1] == '=';
                let sym = if two {
                    seq![c, '=']
                } else {
                    seq![c]
                };
                let next = if two {
                    i + 2
                } else {
                    i + 1
                };
                if acc.len() == 0 {
                    Err(LexError::LeadingSymbol)
                } else {
                    spec_tokenise_from(
                        s,
                        next,
                        acc.drop_last().push(SpecToken::MathSymbol(sym)).push(acc.last()),
                    )
                }
            }
        } else if spec_is_whitespace_char(c) {
            spec_tokenise_from(s, i + 1, acc)
        } else if c == '\'' {
            if i + 2 < s.len() && s[i + 2] == '\'' {
                spec_tokenise_from(s, i + 3, acc.push(SpecToken::CharValue(s[i + 1])))
            } else {
                Err(LexError::UnterminatedCharLiteral)
            }
        } else if c == '"' {
            let j = str_end(s, i + 1);
            if j >= s.len() {
                Err(LexError::UnterminatedStringLiteral)
            } else {
                spec_tokenise_from(
                    s,
                    j + 1,
                    acc.push(SpecToken::StringValue(s.subrange(i + 1, j))),
                )
            }
        } else if c == '/' {
            if i + 1 < s.len() && s[i + 1] == '/' {
                spec_tokenise_from(s, line_end(s, i + 2), acc)
            } else {
                Err(LexError::StraySlash)
            }
        } else {
            Err(LexError::UnrecognisedChar(c))
        }
    }
}

#[via_fn]
proof fn spec_tokenise_from_decreases(s: Seq<char>, i: int, acc: Seq<SpecToken>) {
    if 0 <= i && i < s.len() {
        lemma_ident_end(s, i + 1);
        lemma_num_end(s, i + 1);
        lemma_str_end(s, i + 1);
        if i + 2 <= s.len() {
            lemma_line_end(s, i + 2);
            lemma_num_end(s, i + 2);
        }
    }
}

/// The model of tokenizing the whole input.
pub open spec fn spec_tokenise(s: Seq<char>) -> Result<Seq<SpecToken>, LexError> {
    spec_tokenise_from(s, 0, Seq::empty())
}

/// Whether `c` may appear in a numeric literal run.
fn is_number_char(c: char) -> (r: bool)
    ensures
        r == is_num_char(c),
{
    is_digit(c) || c == '.'
}

/// Scans the numeric literal whose digit run starts at `start`, with `neg`
/// telling whether a folded minus sign precedes it.
#[verifier::loop_isolation(false)]
fn scan_number(s: &str, start: usize, neg: bool, len: usize) -> (r: Result<(Token, usize), LexError>)
    requires
        len == s@.len(),
        start < len,
        is_digit_char(s@[start as int]),
    ensures
        match r {
            Ok(p) => {
                &&& number_token(s@, start as int, neg) == Ok::<SpecToken, LexError>(p.0@)
                &&& p.1 == num_end(s@, start as int)
                &&& start < p.1 <= len
            },
            Err(e) => number_token(s@, start as int, neg) == Err::<SpecToken, LexError>(e),
        },
{
    proof {
        lemma_num_end(s@, start as int);
    }
    let mut buf: Vec<char> = Vec::new();
    let mut dots: usize = 0;
    let mut j = start;
    while j < len && is_number_char(s.get_char(j))
        invariant
            start <= j <= len,
            num_end(s@, start as int) == num_end(s@, j as int),
            buf@ == s@.subrange(start as int, j as int),
            dots == dot_count(buf@),
            dots <= j - start,
        decreases len - j,
    {
        let c2 = s.get_char(j);
        buf.push(c2);
        if c2 == '.' {
            dots = dots + 1;
        }
        proof {
            assert(s@.subrange(start as int, j + 1 as int).drop_last() =~= s@.subrange(
                start as int,
                j as int,
            ));
            assert(buf@ =~= s@.subrange(start as int, j + 1 as int));
        }
        j = j + 1;
    }
    proof {
        assert(num_end(s@, j as int) == j);
        assert(buf@ == s@.subrange(start as int, num_end(s@, start as int)));
        assert(j > start);
    }
    if dots == 1 {
        let mut tv: Vec<char> = Vec::new();
        if neg {
            tv.push('-');
        }
        tv.append(&mut buf);
        proof {
            if neg {
                assert(tv@ =~= seq!['-'] + s@.subrange(start as int, num_end(s@, start as int)));
            } else {
                assert(tv@ =~= s@.subrange(start as int, num_end(s@, start as int)));
            }
        }
        let text = chars_to_string(&tv);
        Ok((Token::Float(text), j))
    } else if dots > 1 {
        Err(LexError::MalformedNumber)
    } else {
        proof {
            lemma_dot_count_zero(buf@);
            lemma_num_end(s@, start as int);
            assert(forall|k: int|
                0 <= k < buf@.len() ==> is_num_char(#[trigger] buf@[k]));
            assert(all_digits(buf@));
        }
        match read_i32(neg, &buf) {
            Option::Some(v) => Ok((Token::Int(v), j)),
            Option::None => Err(LexError::IntOutOfRange),
        }
    }
}

/// Turns source text into its ordered token sequence, or reports the first
/// lexical fault. The result is exactly `spec_tokenise` of the input.
#[verifier::loop_isolation(false)]
pub fn tokenise(contents: &str) -> (r: Result<Vec<Token>, LexError>)
    ensures
        match r {
            Ok(v) => spec_tokenise(contents@) == Ok::<Seq<SpecToken>, LexError>(view_tokens(v@)),
            Err(e) => spec_tokenise(contents@) == Err::<Seq<SpecToken>, LexError>(e),
        },
{
    broadcast use lemma_view_tokens_push;

    let s = contents;
    let len = s.unicode_len();
    let mut tokens: Vec<Token> = Vec::new();
    let mut i: usize = 0;
    proof {
        assert(view_tokens(tokens@) =~= Seq::<SpecToken>::empty());
    }
    while i < len
        invariant
            i <= len,
            spec_tokenise(s@) == spec_tokenise_from(s@, i as int, view_tokens(tokens@)),
        decreases len - i,
    {
        let ghost i0 = i as int;
        let ghost acc0 = view_tokens(tokens@);
        let c = s.get_char(i);
        if is_punc_char(c) {
            if c == '=' && i + 1 < len && s.get_char(i + 1) == '=' {
                if tokens.len() == 0 {
                    return Err(LexError::LeadingSymbol);
                }
                let prev = tokens.pop().unwrap();
                tokens.push(Token::MathSymbol(String::from_str("==")));
                tokens.push(prev);
                proof {
                    assert(view_tokens(tokens@) =~= acc0.drop_last().push(
                        SpecToken::MathSymbol("=="@),
                    ).push(acc0.last()));
                }
                i = i + 2;
            } else {
                tokens.push(Token::Punctuation(c));
                i = i + 1;
            }
        } else if is_str_literal_char(c) {
            let mut buf: Vec<char> = Vec::new();
            buf.push(c);
            let mut j = i + 1;
            proof {
                assert(buf@ =~= s@.subrange(i0, i0 + 1));
            }
            while j < len && is_str_literal_char(s.get_char(j))
                invariant
                    i < j <= len,
                    ident_end(s@, i0) == ident_end(s@, j as int),
                    buf@ == s@.subrange(i0, j as int),
                decreases len - j,
            {
                buf.push(s.get_char(j));
                proof {
                    assert(buf@ =~= s@.subrange(i0, j + 1 as int));
                }
                j = j + 1;
            }
            proof {
                assert(ident_end(s@, j as int) == j);
            }
            let word = chars_to_string(&buf);
            if is_keyword(word.as_str()) {
                tokens.push(Token::Keyword(word));
            } else {
                tokens.push(Token::StringLiteral(word));
            }
            i = j;
        } else if is_digit(c) {
            match scan_number(s, i, false, len) {
                Ok(p) => {
                    let (t, j) = p;
                    tokens.push(t);
                    i = j;
                },
                Err(e) => {
                    return Err(e);
                },
            }
        } else if is_math_char(c) {
            if i + 1 >= len {
                return Err(LexError::SymbolAtEnd);
            }
            let c2 = s.get_char(i + 1);
            if (c == '+' || c == '-') && is_digit(c2) {
                match scan_number(s, i + 1, c == '-', len) {
                    Ok(p) => {
                        let (t, j) = p;
                        tokens.push(t);
                        i = j;
                    },
                    Err(e) => {
                        return Err(e);
                    },
                }
            } else {
                let two = (c == '<' || c == '>') && c2 == '=';
                let mut sym = String::new();
                push_char(&mut sym, c);
                if two {
                    push_char(&mut sym, '=');
                    proof {
                        assert(sym@ =~= seq![c, '=']);
                    }
                } else {
                    proof {
                        assert(sym@ =~= seq![c]);
                    }
                }
                if tokens.len() == 0 {
                    return Err(LexError::LeadingSymbol);
                }
                let prev = tokens.pop().unwrap();
                tokens.push(Token::MathSymbol(sym));
                tokens.push(prev);
                proof {
                    assert(view_tokens(tokens@) =~= acc0.drop_last().push(
                        SpecToken::MathSymbol(if two {
                            seq![c, '=']
                        } else {
                            seq![c]
                        }),
                    ).push(acc0.last()));
                }
                if two {
                    i = i + 2;
                } else {
                    i = i + 1;
                }
            }
        } else if is_whitespace_char(c) {
            i = i + 1;
        } else if c == '\'' {
            if len - i > 2 {
                let ch = s.get_char(i + 1);
                let q = s.get_char(i + 2);
                if q == '\'' {
                    tokens.push(Token::CharValue(ch));
                    i = i + 3;
                } else {
                    return Err(LexError::UnterminatedCharLiteral);
                }
            } else {
                return Err(LexError::UnterminatedCharLiteral);
            }
        } else if c == '"' {
            let mut j = i + 1;
            while j < len && s.get_char(j) != '"'
                invariant
                    i + 1 <= j <= len,
                    str_end(s@, i0 + 1) == str_end(s@, j as int),
                decreases len - j,
            {
                if s.get_char(j) == '\\' {
                    if len - j >= 2 {
                        j = j + 2;
                    } else {
                        j = len;
                    }
                } else {
                    j = j + 1;
                }
            }
            proof {
                assert(str_end(s@, j as int) == if j < s@.len() {
                    j as int
                } else {
                    s@.len() as int
                });
            }
            let end = j;
            if end >= len {
                return Err(LexError::UnterminatedStringLiteral);
            }
            let mut buf: Vec<char> = Vec::new();
            let mut k = i + 1;
            proof {
                assert(buf@ =~= s@.subrange(i0 + 1, i0 + 1));
            }
            while k < end
                invariant
                    i + 1 <= k <= end,
                    end < len,
                    buf@ == s@.subrange(i0 + 1, k as int),
                decreases end - k,
            {
                buf.push(s.get_char(k));
                proof {
                    assert(buf@ =~= s@.subrange(i0 + 1, k + 1 as int));
                }
                k = k + 1;
            }
            tokens.push(Token::StringValue(chars_to_string(&buf)));
            i = end + 1;
        } else if c == '/' {
            if i + 1 < len && s.get_char(i + 1) == '/' {
                let mut j = i + 2;
                while j < len && s.get_char(j) != '\n'
                    invariant
                        i + 2 <= j <= len,
                        line_end(s@, i0 + 2) == line_end(s@, j as int),
                    decreases len - j,
                {
                    j = j + 1;
                }
                if j < len {
                    proof {
                        assert(line_end(s@, j as int) == j + 1);
                    }
                    j = j + 1;
                } else {
                    proof {
                        assert(line_end(s@, j as int) == s@.len());
                    }
                }
                i = j;
            } else {
                return Err(LexError::StraySlash);
            }
        } else {
            return Err(LexError::UnrecognisedChar(c));
        }
    }
    Ok(tokens)
}

} // verus!
