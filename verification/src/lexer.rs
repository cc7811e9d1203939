//! The tokenizer: classifies the characters of a source string into a
//! sequence of tokens.
//!
//! The mathematical model is `lex`, a recursive function over the character
//! sequence of the input: `scan_token` gives the first token of a non-empty
//! input together with the number of characters it consumes, and `lex`
//! iterates it to the end. `tokenize` is the executable scanner, proved to
//! return exactly the tokens of `lex`.

use vstd::prelude::*;
use vstd::string::StrSliceExecFns;
use crate::cursor::char_at;
use crate::cursor::Cursor;

verus! {

/// Whether a comment documents the item that follows it (`///`, `/**`) or
/// the item that encloses it (`//!`, `/*!`).
#[derive(Clone, Copy, Debug, PartialEq, Eq)]
pub enum DocStyle {
    Outer,
    Inner,
}

/// The classification of a token.
#[derive(Clone, Copy, Debug, PartialEq, Eq)]
pub enum TokenKind {
    /// `// comment`, `/// doc`, `//! doc`
    LineComment { doc_style: Option<DocStyle> },
    /// `/* block comment */`, with recursive nesting; `terminated` is false
    /// when the input ended before the nesting closed.
    BlockComment { doc_style: Option<DocStyle>, terminated: bool },
    /// A run of whitespace characters.
    Whitespace,
    /// A run of alphabetic characters.
    Ident,
    /// A run of decimal digits.
    Literal,
    /// `;`
    Semi,
    /// `,`
    Comma,
    /// `.`
    Dot,
    /// `(`
    OpenParen,
    /// `)`
    CloseParen,
    /// `{`
    OpenBrace,
    /// `}`
    CloseBrace,
    /// `[`
    OpenBracket,
    /// `]`
    CloseBracket,
    /// `@`
    At,
    /// `#`
    Pound,
    /// `~`
    Tilde,
    /// `?`
    Question,
    /// `:`
    Colon,
    /// `$`
    Dollar,
    /// `=`
    Eq,
    /// `!`
    Bang,
    /// `<`
    Lt,
    /// `>`
    Gt,
    /// `-`
    Minus,
    /// `&`
    And,
    /// `|`
    Or,
    /// `+`
    Plus,
    /// `*`
    Star,
    /// `/`
    Slash,
    /// `^`
    Caret,
    /// `%`
    Percent,
    /// A quoted span delimited by `'`.
    CharLiteral,
    /// A quoted span delimited by `"`.
    StringLiteral,
    /// Unrecognized or unterminated input.
    Error,
    /// The null sentinel; reachable only when the input itself holds `'\0'`.
    EOF,
}

/// A classified span of source text. `text` is the exact substring consumed
/// to produce the token, except for the `Error` token of an unrecognized
/// character, whose text is the fixed string `"Err"`.
#[derive(Debug, PartialEq)]
pub struct Token {
    pub kind: TokenKind,
    pub text: String,
}

/// The mathematical value of a token: its kind and the characters of its
/// text.
#[verifier::ext_equal]
pub ghost struct SpecToken {
    pub kind: TokenKind,
    pub text: Seq<char>,
}

impl View for Token {
    type V = SpecToken;

    open spec fn view(&self) -> SpecToken {
        SpecToken { kind: self.kind, text: self.text@ }
    }
}

impl Token {
    pub fn new(kind: TokenKind, text: String) -> (t: Self)
        ensures
            t.kind == kind,
            t.text == text,
    {
        Token { kind, text }
    }
}

impl Clone for Token {
    fn clone(&self) -> (t: Self)
        ensures
            t == *self,
    {
        Token { kind: self.kind, text: self.text.clone() }
    }
}

/// The whitespace characters: the ones that open a `Whitespace` token and
/// extend its run.
pub open spec fn is_whitespace_char(c: char) -> bool {
    c == ' ' || c == '\t' || c == '\r' || c == '\n'
}

/// The decimal digits.
pub open spec fn is_digit_char(c: char) -> bool {
    '0' <= c && c <= '9'
}

/// The alphabetic characters: identifiers hold these alone, with no digits
/// and no underscore.
pub open spec fn is_letter_char(c: char) -> bool {
    ('a' <= c && c <= 'z') || ('A' <= c && c <= 'Z')
}

/// The kind of a one-character punctuation token, or `None` for every
/// character that takes lookahead (`/` and the quotes) or belongs to another
/// class.
pub open spec fn punct_kind(c: char) -> Option<TokenKind> {
    if c == ';' {
        Some(TokenKind::Semi)
    } else if c == ',' {
        Some(TokenKind::Comma)
    } else if c == '.' {
        Some(TokenKind::Dot)
    } else if c == '(' {
        Some(TokenKind::OpenParen)
    } else if c == ')' {
        Some(TokenKind::CloseParen)
    } else if c == '{' {
        Some(TokenKind::OpenBrace)
    } else if c == '}' {
        Some(TokenKind::CloseBrace)
    } else if c == '[' {
        Some(TokenKind::OpenBracket)
    } else if c == ']' {
        Some(TokenKind::CloseBracket)
    } else if c == '@' {
        Some(TokenKind::At)
    } else if c == '#' {
        Some(TokenKind::Pound)
    } else if c == '~' {
        Some(TokenKind::Tilde)
    } else if c == '?' {
        Some(TokenKind::Question)
    } else if c == ':' {
        Some(TokenKind::Colon)
    } else if c == '$' {
        Some(TokenKind::Dollar)
    } else if c == '=' {
        Some(TokenKind::Eq)
    } else if c == '!' {
        Some(TokenKind::Bang)
    } else if c == '<' {
        Some(TokenKind::Lt)
    } else if c == '>' {
        Some(TokenKind::Gt)
    } else if c == '-' {
        Some(TokenKind::Minus)
    } else if c == '&' {
        Some(TokenKind::And)
    } else if c == '|' {
        Some(TokenKind::Or)
    } else if c == '+' {
        Some(TokenKind::Plus)
    } else if c == '*' {
        Some(TokenKind::Star)
    } else if c == '^' {
        Some(TokenKind::Caret)
    } else if c == '%' {
        Some(TokenKind::Percent)
    } else {
        None
    }
}

/// A first-order character class, the condition of a greedy scanning run.
#[derive(Clone, Copy)]
pub enum CharClass {
    Whitespace,
    Digit,
    Letter,
    /// Every character but the given one.
    NotChar(char),
}

/// Whether character `c` belongs to class `cl`.
pub open spec fn class_holds(cl: CharClass, c: char) -> bool {
    match cl {
        CharClass::Whitespace => is_whitespace_char(c),
        CharClass::Digit => is_digit_char(c),
        CharClass::Letter => is_letter_char(c),
        CharClass::NotChar(stop) => c != stop,
    }
}

/// The length of the maximal prefix of `s` whose characters all belong to
/// class `cl`.
pub open spec fn class_run(cl: CharClass, s: Seq<char>) -> nat
    decreases s.len(),
{
    if s.len() > 0 && class_holds(cl, s[0]) {
        1 + class_run(cl, s.skip(1))
    } else {
        0
    }
}

pub proof fn lemma_class_run_le(cl: CharClass, s: Seq<char>)
    ensures
        class_run(cl, s) <= s.len(),
    decreases s.len(),
{
    if s.len() > 0 && class_holds(cl, s[0]) {
        lemma_class_run_le(cl, s.skip(1));
    }
}

pub proof fn lemma_class_run_all(cl: CharClass, s: Seq<char>)
    requires
        forall|i: int| 0 <= i < s.len() ==> class_holds(cl, s[i]),
    ensures
        class_run(cl, s) == s.len(),
    decreases s.len(),
{
    if s.len() > 0 {
        assert(forall|i: int| 0 <= i < s.skip(1).len() ==> class_holds(cl, s.skip(1)[i]));
        lemma_class_run_all(cl, s.skip(1));
    }
}

/// The scan of a block comment body, from just after the opening `/*`, at
/// the given nesting depth: how many characters the scan consumes, and
/// whether the nesting closed (depth reached zero) before the input ran out.
pub open spec fn block_scan(s: Seq<char>, depth: nat) -> (nat, bool)
    decreases s.len(),
{
    if depth == 0 {
        (0, true)
    } else if s.len() == 0 {
        (0, false)
    } else if s.len() >= 2 && s[0] == '*' && s[1] == '/' {
        let r = block_scan(s.skip(2), (depth - 1) as nat);
        ((2 + r.0) as nat, r.1)
    } else if s.len() >= 2 && s[0] == '/' && s[1] == '*' {
        let r = block_scan(s.skip(2), depth + 1);
        ((2 + r.0) as nat, r.1)
    } else {
        let r = block_scan(s.skip(1), depth);
        ((1 + r.0) as nat, r.1)
    }
}

pub proof fn lemma_block_scan_le(s: Seq<char>, depth: nat)
    ensures
        block_scan(s, depth).0 <= s.len(),
    decreases s.len(),
{
    if depth == 0 || s.len() == 0 {
    } else if s.len() >= 2 && ((s[0] == '*' && s[1] == '/') || (s[0] == '/' && s[1] == '*')) {
        if s[0] == '*' && s[1] == '/' {
            lemma_block_scan_le(s.skip(2), (depth - 1) as nat);
        } else {
            lemma_block_scan_le(s.skip(2), depth + 1);
        }
    } else {
        lemma_block_scan_le(s.skip(1), depth);
    }
}

/// The first token of the non-empty character sequence `s`, together with
/// the number of characters the scan consumes for it. The consumed count and
/// the token text agree except for the `Error` token of an unrecognized
/// character, which consumes one character but carries the text `"Err"`.
pub open spec fn scan_token(s: Seq<char>) -> (SpecToken, nat)
    recommends
        s.len() > 0,
{
    let c = char_at(s, 0);
    if is_whitespace_char(c) {
        let n = 1 + class_run(CharClass::Whitespace, s.skip(1));
        (SpecToken { kind: TokenKind::Whitespace, text: s.take(n as int) }, n)
    } else if punct_kind(c) is Some {
        (SpecToken { kind: punct_kind(c)->0, text: s.take(1) }, 1)
    } else if c == '/' && char_at(s, 1) == '/' {
        let c2 = char_at(s, 2);
        let doc_style = if c2 == '!' {
            Some(DocStyle::Inner)
        } else if c2 == '/' {
            Some(DocStyle::Outer)
        } else {
            None
        };
        let plen: nat = if doc_style is Some {
            3
        } else {
            2
        };
        let n = plen + class_run(CharClass::NotChar('\n'), s.skip(plen as int));
        (SpecToken { kind: TokenKind::LineComment { doc_style }, text: s.take(n as int) }, n)
    } else if c == '/' && char_at(s, 1) == '*' {
        let r = block_scan(s.skip(2), 1);
        let n = 2 + r.0;
        let doc_style = if s.len() >= 3 && s[2] == '!' {
            Some(DocStyle::Inner)
        } else if s.len() >= 3 && s[2] == '*' {
            Some(DocStyle::Outer)
        } else {
            None
        };
        (
            SpecToken { kind: TokenKind::BlockComment { doc_style, terminated: r.1 }, text: s.take(n as int) },
            n,
        )
    } else if c == '/' {
        (SpecToken { kind: TokenKind::Slash, text: s.take(1) }, 1)
    } else if c == '\'' {
        let m = class_run(CharClass::NotChar('\''), s.skip(1));
        let n: nat = if 1 + m < s.len() {
            2 + m
        } else {
            1 + m
        };
        (SpecToken { kind: TokenKind::CharLiteral, text: s.take(n as int) }, n)
    } else if c == '"' {
        let m = class_run(CharClass::NotChar('"'), s.skip(1));
        if 1 + m < s.len() {
            (SpecToken { kind: TokenKind::StringLiteral, text: s.take(2 + m as int) }, (2 + m) as nat)
        } else {
            (SpecToken { kind: TokenKind::Error, text: s.take(1 + m as int) }, (1 + m) as nat)
        }
    } else if is_digit_char(c) {
        let n = 1 + class_run(CharClass::Digit, s.skip(1));
        (SpecToken { kind: TokenKind::Literal, text: s.take(n as int) }, n)
    } else if is_letter_char(c) {
        let n = 1 + class_run(CharClass::Letter, s.skip(1));
        (SpecToken { kind: TokenKind::Ident, text: s.take(n as int) }, n)
    } else if c == '\0' {
        (SpecToken { kind: TokenKind::EOF, text: s.take(1) }, 1)
    } else {
        (SpecToken { kind: TokenKind::Error, text: seq!['E', 'r', 'r'] }, 1)
    }
}

/// The characters on which the scan opens a token: every character but the
/// ones that fall to the unrecognized-input case.
pub open spec fn char_classified(c: char) -> bool {
    ||| is_whitespace_char(c)
    ||| punct_kind(c) is Some
    ||| c == '/'
    ||| c == '\''
    ||| c == '"'
    ||| is_digit_char(c)
    ||| is_letter_char(c)
    ||| c == '\0'
}

/// A scan step consumes at least one character and no more than the input
/// holds; on a classified head character the token text is exactly the
/// consumed prefix.
pub proof fn lemma_scan_token(s: Seq<char>)
    requires
        s.len() > 0,
    ensures
        1 <= scan_token(s).1 <= s.len(),
        char_classified(s[0]) ==> scan_token(s).0.text == s.take(scan_token(s).1 as int),
{
    let c = s[0];
    assert(char_at(s, 0) == c);
    if is_whitespace_char(c) {
        lemma_class_run_le(CharClass::Whitespace, s.skip(1));
    } else if punct_kind(c) is Some {
    } else if c == '/' && char_at(s, 1) == '/' {
        let c2 = char_at(s, 2);
        let plen: int = if c2 == '!' || c2 == '/' {
            3
        } else {
            2
        };
        assert(char_at(s, 1) == '/' ==> s.len() >= 2);
        assert(plen == 3 ==> s.len() >= 3);
        lemma_class_run_le(CharClass::NotChar('\n'), s.skip(plen));
    } else if c == '/' && char_at(s, 1) == '*' {
        lemma_block_scan_le(s.skip(2), 1);
    } else if c == '/' {
    } else if c == '\'' {
        lemma_class_run_le(CharClass::NotChar('\''), s.skip(1));
    } else if c == '"' {
        lemma_class_run_le(CharClass::NotChar('"'), s.skip(1));
    } else if is_digit_char(c) {
        lemma_class_run_le(CharClass::Digit, s.skip(1));
    } else if is_letter_char(c) {
        lemma_class_run_le(CharClass::Letter, s.skip(1));
    } else {
    }
}

/// The tokens of the character sequence `s`, scanned left to right to the
/// end of the input.
pub open spec fn lex(s: Seq<char>) -> Seq<SpecToken>
    decreases s.len(),
{
    if s.len() == 0 {
        Seq::empty()
    } else {
        let r = scan_token(s);
        proof {
            lemma_scan_token(s);
        }
        seq![r.0] + lex(s.skip(r.1 as int))
    }
}

/// The concatenation of the texts of a token sequence.
pub open spec fn concat_texts(ts: Seq<SpecToken>) -> Seq<char>
    decreases ts.len(),
{
    if ts.len() == 0 {
        Seq::empty()
    } else {
        ts[0].text + concat_texts(ts.skip(1))
    }
}

/// A non-empty input of whitespace characters alone scans to exactly one
/// `Whitespace` token whose text is the whole input.
pub proof fn lemma_lex_whitespace_only(s: Seq<char>)
    requires
        s.len() > 0,
        forall|i: int| 0 <= i < s.len() ==> is_whitespace_char(s[i]),
    ensures
        lex(s) =~= seq![SpecToken { kind: TokenKind::Whitespace, text: s }],
{
    assert(char_at(s, 0) == s[0]);
    assert forall|i: int| 0 <= i < s.skip(1).len() implies class_holds(
        CharClass::Whitespace,
        s.skip(1)[i],
    ) by {
        assert(s.skip(1)[i] == s[i + 1]);
    }
    lemma_class_run_all(CharClass::Whitespace, s.skip(1));
    assert(scan_token(s).1 == s.len());
    assert(s.take(s.len() as int) =~= s);
    assert(s.skip(s.len() as int) =~= Seq::<char>::empty());
    assert(lex(s) == seq![scan_token(s).0] + lex(s.skip(s.len() as int)));
}

/// A non-empty run of decimal digits alone scans to exactly one `Literal`
/// token whose text is the whole run.
pub proof fn lemma_lex_digits_only(s: Seq<char>)
    requires
        s.len() > 0,
        forall|i: int| 0 <= i < s.len() ==> is_digit_char(s[i]),
    ensures
        lex(s) =~= seq![SpecToken { kind: TokenKind::Literal, text: s }],
{
    assert(char_at(s, 0) == s[0]);
    assert forall|i: int| 0 <= i < s.skip(1).len() implies class_holds(
        CharClass::Digit,
        s.skip(1)[i],
    ) by {
        assert(s.skip(1)[i] == s[i + 1]);
    }
    lemma_class_run_all(CharClass::Digit, s.skip(1));
    assert(scan_token(s).1 == s.len());
    assert(s.take(s.len() as int) =~= s);
    assert(s.skip(s.len() as int) =~= Seq::<char>::empty());
    assert(lex(s) == seq![scan_token(s).0] + lex(s.skip(s.len() as int)));
}

/// Round trip: concatenating the texts of the tokens of `s` gives back `s`
/// exactly, whenever every character of `s` is one the scan classifies.
pub proof fn lemma_lex_round_trip(s: Seq<char>)
    requires
        forall|i: int| 0 <= i < s.len() ==> char_classified(s[i]),
    ensures
        concat_texts(lex(s)) =~= s,
    decreases s.len(),
{
    if s.len() == 0 {
        assert(concat_texts(lex(s)) =~= Seq::<char>::empty());
    } else {
        lemma_scan_token(s);
        let r = scan_token(s);
        let n = r.1 as int;
        assert(r.0.text == s.take(n));
        assert forall|i: int| 0 <= i < s.skip(n).len() implies char_classified(s.skip(n)[i]) by {
            assert(s.skip(n)[i] == s[n + i]);
        }
        lemma_lex_round_trip(s.skip(n));
        assert(lex(s) == seq![r.0] + lex(s.skip(n)));
        let ts = lex(s);
        assert(ts[0] == r.0);
        assert(ts.skip(1) =~= lex(s.skip(n)));
        assert(concat_texts(ts) == ts[0].text + concat_texts(ts.skip(1)));
        assert(s.take(n) + s.skip(n) =~= s);
    }
}

proof fn lemma_skip_skip(s: Seq<char>, a: int, b: int)
    requires
        0 <= a,
        0 <= b,
        a + b <= s.len(),
    ensures
        s.skip(a).skip(b) =~= s.skip(a + b),
{
}

proof fn lemma_skip_take(s: Seq<char>, a: int, b: int)
    requires
        0 <= a,
        0 <= b,
        a + b <= s.len(),
    ensures
        s.skip(a).take(b) =~= s.subrange(a, a + b),
{
}

/// Whether `c` belongs to the class `cl`.
fn class_test(cl: CharClass, c: char) -> (b: bool)
    ensures
        b == class_holds(cl, c),
{
    match cl {
        CharClass::Whitespace => c == ' ' || c == '\t' || c == '\r' || c == '\n',
        CharClass::Digit => '0' <= c && c <= '9',
        CharClass::Letter => ('a' <= c && c <= 'z') || ('A' <= c && c <= 'Z'),
        CharClass::NotChar(stop) => c != stop,
    }
}

/// Advances the scanner over the maximal run of characters of class `cl`.
fn consume_while(cursor: &mut Cursor, cl: CharClass)
    requires
        old(cursor).len <= old(cursor).input@.len(),
    ensures
        final(cursor).input == old(cursor).input,
        final(cursor).len == old(cursor).len + class_run(cl, old(cursor).remaining()),
        final(cursor).len <= final(cursor).input@.len(),
{
    proof {
        lemma_class_run_le(cl, old(cursor).remaining());
    }
    while !cursor.is_eof() && class_test(cl, cursor.first())
        invariant
            cursor.input == old(cursor).input,
            old(cursor).len <= cursor.len <= cursor.input@.len(),
            class_run(cl, old(cursor).remaining()) == (cursor.len - old(cursor).len)
                + class_run(cl, cursor.remaining()),
        decreases cursor.input@.len() - cursor.len,
    {
        proof {
            let rem = cursor.remaining();
            assert(rem[0] == char_at(cursor.input@, cursor.len as int));
            assert(class_run(cl, rem) == 1 + class_run(cl, rem.skip(1)));
            lemma_skip_skip(cursor.input@, cursor.len as int, 1);
        }
        cursor.bump();
    }
    proof {
        if cursor.len < cursor.input@.len() {
            assert(cursor.remaining()[0] == char_at(cursor.input@, cursor.len as int));
        }
        assert(class_run(cl, cursor.remaining()) == 0);
    }
}

/// Scans a block comment body from just after the opening `/*`, tracking the
/// nesting depth, and reports whether the nesting closed before the end of
/// the input.
fn skip_block_comment(cursor: &mut Cursor) -> (terminated: bool)
    requires
        old(cursor).len <= old(cursor).input@.len(),
    ensures
        final(cursor).input == old(cursor).input,
        final(cursor).len == old(cursor).len + block_scan(old(cursor).remaining(), 1).0,
        terminated == block_scan(old(cursor).remaining(), 1).1,
        final(cursor).len <= final(cursor).input@.len(),
{
    proof {
        lemma_block_scan_le(old(cursor).remaining(), 1);
    }
    let mut depth: usize = 1;
    while depth > 0 && !cursor.is_eof()
        invariant
            cursor.input == old(cursor).input,
            old(cursor).len <= cursor.len <= cursor.input@.len(),
            2 * (depth as int) <= 2 + cursor.len - old(cursor).len,
            block_scan(old(cursor).remaining(), 1).0 == (cursor.len - old(cursor).len)
                + block_scan(cursor.remaining(), depth as nat).0,
            block_scan(old(cursor).remaining(), 1).1 == block_scan(
                cursor.remaining(),
                depth as nat,
            ).1,
        decreases cursor.input@.len() - cursor.len,
    {
        let ghost rem = cursor.remaining();
        let ghost pos = cursor.len as int;
        proof {
            assert(rem.len() > 0);
            assert(rem[0] == char_at(cursor.input@, pos));
            if rem.len() >= 2 {
                assert(rem[1] == char_at(cursor.input@, pos + 1));
            }
            lemma_block_scan_le(cursor.remaining(), depth as nat);
        }
        let a = cursor.first();
        let b = cursor.second();
        if a == '*' && b == '/' {
            cursor.bump();
            cursor.bump();
            depth = depth - 1;
            proof {
                lemma_skip_skip(cursor.input@, pos, 2);
            }
        } else if a == '/' && b == '*' {
            cursor.bump();
            cursor.bump();
            depth = depth + 1;
            proof {
                lemma_skip_skip(cursor.input@, pos, 2);
            }
        } else {
            cursor.bump();
            proof {
                lemma_skip_skip(cursor.input@, pos, 1);
            }
        }
    }
    proof {
        if depth > 0 {
            assert(cursor.remaining().len() == 0);
        }
        assert(block_scan(cursor.remaining(), depth as nat).0 == 0);
    }
    depth == 0
}

/// The kind of a one-character punctuation token, decided exactly as
/// `punct_kind` says.
fn punct_token_kind(c: char) -> (k: Option<TokenKind>)
    ensures
        k == punct_kind(c),
{
    if c == ';' {
        Some(TokenKind::Semi)
    } else if c == ',' {
        Some(TokenKind::Comma)
    } else if c == '.' {
        Some(TokenKind::Dot)
    } else if c == '(' {
        Some(TokenKind::OpenParen)
    } else if c == ')' {
        Some(TokenKind::CloseParen)
    } else if c == '{' {
        Some(TokenKind::OpenBrace)
    } else if c == '}' {
        Some(TokenKind::CloseBrace)
    } else if c == '[' {
        Some(TokenKind::OpenBracket)
    } else if c == ']' {
        Some(TokenKind::CloseBracket)
    } else if c == '@' {
        Some(TokenKind::At)
    } else if c == '#' {
        Some(TokenKind::Pound)
    } else if c == '~' {
        Some(TokenKind::Tilde)
    } else if c == '?' {
        Some(TokenKind::Question)
    } else if c == ':' {
        Some(TokenKind::Colon)
    } else if c == '$' {
        Some(TokenKind::Dollar)
    } else if c == '=' {
        Some(TokenKind::Eq)
    } else if c == '!' {
        Some(TokenKind::Bang)
    } else if c == '<' {
        Some(TokenKind::Lt)
    } else if c == '>' {
        Some(TokenKind::Gt)
    } else if c == '-' {
        Some(TokenKind::Minus)
    } else if c == '&' {
        Some(TokenKind::And)
    } else if c == '|' {
        Some(TokenKind::Or)
    } else if c == '+' {
        Some(TokenKind::Plus)
    } else if c == '*' {
        Some(TokenKind::Star)
    } else if c == '^' {
        Some(TokenKind::Caret)
    } else if c == '%' {
        Some(TokenKind::Percent)
    } else {
        None
    }
}

/// The substring of `input` from character position `start` to `end`, as an
/// owned string.
fn text_of_span(input: &str, start: usize, end: usize) -> (t: String)
    requires
        start <= end <= input@.len(),
    ensures
        t@ == input@.subrange(start as int, end as int),
{
    let sub = input.substring_char(start, end);
    sub.to_owned()
}

/// The mathematical values of a sequence of tokens.
pub open spec fn token_views(ts: Seq<Token>) -> Seq<SpecToken> {
    ts.map_values(|t: Token| t@)
}

/// Scans the whole input left to right and returns its tokens, exactly the
/// ones of the model `lex`. Unrecognized input yields a local `Error` token
/// and the scan continues; it never fails.
pub fn tokenize(input: &str) -> (tokens: Vec<Token>)
    ensures
        token_views(tokens@) == lex(input@),
{
    let mut cursor = Cursor::new(input);
    let mut tokens: Vec<Token> = Vec::new();
    proof {
        assert(input@.skip(0) =~= input@);
        assert(token_views(tokens@) =~= Seq::<SpecToken>::empty());
        assert(token_views(tokens@) + lex(input@) =~= lex(input@));
    }
    while !cursor.is_eof()
        invariant
            cursor.input@ == input@,
            cursor.len <= input@.len(),
            lex(input@) == token_views(tokens@) + lex(input@.skip(cursor.len as int)),
        decreases input@.len() - cursor.len,
    {
        let start = cursor.len;
        let ghost rem = input@.skip(start as int);
        proof {
            lemma_scan_token(rem);
        }
        let cur = cursor.bump();
        proof {
            assert(cur == rem[0]);
            assert(char_at(rem, 0) == cur);
        }
        let token: Token = if class_test(CharClass::Whitespace, cur) {
            consume_while(&mut cursor, CharClass::Whitespace);
            let t = Token::new(TokenKind::Whitespace, text_of_span(input, start, cursor.len));
            proof {
                lemma_skip_skip(input@, start as int, 1);
                lemma_skip_take(input@, start as int, cursor.len - start);
                assert(t@ =~= scan_token(rem).0);
                assert(cursor.len == start + scan_token(rem).1);
            }
            t
        } else if let Some(k) = punct_token_kind(cur) {
            let t = Token::new(k, text_of_span(input, start, cursor.len));
            proof {
                lemma_skip_take(input@, start as int, 1);
                assert(t@ =~= scan_token(rem).0);
                assert(cursor.len == start + scan_token(rem).1);
            }
            t
        } else if cur == '/' {
            let c1 = cursor.first();
            proof {
                assert(c1 == char_at(rem, 1));
            }
            if c1 == '/' {
                cursor.bump();
                let c2 = cursor.first();
                proof {
                    assert(c2 == char_at(rem, 2));
                }
                let doc_style: Option<DocStyle> = if c2 == '!' {
                    cursor.bump();
                    Some(DocStyle::Inner)
                } else if c2 == '/' {
                    cursor.bump();
                    Some(DocStyle::Outer)
                } else {
                    None
                };
                proof {
                    let plen: int = if c2 == '!' || c2 == '/' {
                        3
                    } else {
                        2
                    };
                    assert(cursor.len == start + plen);
                    lemma_skip_skip(input@, start as int, plen);
                }
                consume_while(&mut cursor, CharClass::NotChar('\n'));
                let t = Token::new(
                    TokenKind::LineComment { doc_style },
                    text_of_span(input, start, cursor.len),
                );
                proof {
                    lemma_skip_take(input@, start as int, cursor.len - start);
                    assert(t@ =~= scan_token(rem).0);
                    assert(cursor.len == start + scan_token(rem).1);
                }
                t
            } else if c1 == '*' {
                cursor.bump();
                proof {
                    lemma_skip_skip(input@, start as int, 2);
                }
                let terminated = skip_block_comment(&mut cursor);
                proof {
                    lemma_block_scan_le(rem.skip(2), 1);
                    if rem.skip(2).len() > 0 {
                        assert(block_scan(rem.skip(2), 1).0 >= 1);
                    }
                }
                let doc_style: Option<DocStyle> = if cursor.len - start >= 3 {
                    let c2 = input.get_char(start + 2);
                    proof {
                        assert(c2 == rem[2]);
                    }
                    if c2 == '!' {
                        Some(DocStyle::Inner)
                    } else if c2 == '*' {
                        Some(DocStyle::Outer)
                    } else {
                        None
                    }
                } else {
                    None
                };
                let t = Token::new(
                    TokenKind::BlockComment { doc_style, terminated },
                    text_of_span(input, start, cursor.len),
                );
                proof {
                    lemma_skip_take(input@, start as int, cursor.len - start);
                    assert(t@ =~= scan_token(rem).0);
                    assert(cursor.len == start + scan_token(rem).1);
                }
                t
            } else {
                let t = Token::new(TokenKind::Slash, text_of_span(input, start, cursor.len));
                proof {
                    lemma_skip_take(input@, start as int, 1);
                    assert(t@ =~= scan_token(rem).0);
                    assert(cursor.len == start + scan_token(rem).1);
                }
                t
            }
        } else if cur == '\'' {
            consume_while(&mut cursor, CharClass::NotChar('\''));
            proof {
                lemma_skip_skip(input@, start as int, 1);
            }
            if !cursor.is_eof() {
                cursor.bump();
            }
            let t = Token::new(TokenKind::CharLiteral, text_of_span(input, start, cursor.len));
            proof {
                lemma_skip_take(input@, start as int, cursor.len - start);
                assert(t@ =~= scan_token(rem).0);
                assert(cursor.len == start + scan_token(rem).1);
            }
            t
        } else if cur == '"' {
            consume_while(&mut cursor, CharClass::NotChar('"'));
            proof {
                lemma_skip_skip(input@, start as int, 1);
            }
            let t = if !cursor.is_eof() {
                cursor.bump();
                Token::new(TokenKind::StringLiteral, text_of_span(input, start, cursor.len))
            } else {
                Token::new(TokenKind::Error, text_of_span(input, start, cursor.len))
            };
            proof {
                lemma_skip_take(input@, start as int, cursor.len - start);
                assert(t@ =~= scan_token(rem).0);
                assert(cursor.len == start + scan_token(rem).1);
            }
            t
        } else if class_test(CharClass::Digit, cur) {
            consume_while(&mut cursor, CharClass::Digit);
            let t = Token::new(TokenKind::Literal, text_of_span(input, start, cursor.len));
            proof {
                lemma_skip_skip(input@, start as int, 1);
                lemma_skip_take(input@, start as int, cursor.len - start);
                assert(t@ =~= scan_token(rem).0);
                assert(cursor.len == start + scan_token(rem).1);
            }
            t
        } else if class_test(CharClass::Letter, cur) {
            consume_while(&mut cursor, CharClass::Letter);
            let t = Token::new(TokenKind::Ident, text_of_span(input, start, cursor.len));
            proof {
                lemma_skip_skip(input@, start as int, 1);
                lemma_skip_take(input@, start as int, cursor.len - start);
                assert(t@ =~= scan_token(rem).0);
                assert(cursor.len == start + scan_token(rem).1);
            }
            t
        } else if cur == '\0' {
            let t = Token::new(TokenKind::EOF, text_of_span(input, start, cursor.len));
            proof {
                lemma_skip_take(input@, start as int, 1);
                assert(t@ =~= scan_token(rem).0);
                assert(cursor.len == start + scan_token(rem).1);
            }
            t
        } else {
            let t = Token::new(TokenKind::Error, "Err".to_owned());
            proof {
                reveal_strlit("Err");
                assert(t.text@ =~= seq!['E', 'r', 'r']);
                assert(t@ =~= scan_token(rem).0);
                assert(cursor.len == start + scan_token(rem).1);
            }
            t
        };
        proof {
            assert(token@ == scan_token(rem).0);
            assert(cursor.len == start + scan_token(rem).1);
            let n = scan_token(rem).1 as int;
            lemma_skip_skip(input@, start as int, n);
            assert(lex(rem) == seq![scan_token(rem).0] + lex(rem.skip(n)));
            assert(token_views(tokens@.push(token)) =~= token_views(tokens@).push(token@));
            assert(token_views(tokens@.push(token)) + lex(input@.skip(cursor.len as int)) =~= lex(
                input@,
            ));
        }
        tokens.push(token);
    }
    proof {
        assert(input@.skip(cursor.len as int) =~= Seq::<char>::empty());
        assert(lex(input@.skip(cursor.len as int)) == Seq::<SpecToken>::empty());
        assert(token_views(tokens@) + Seq::<SpecToken>::empty() =~= token_views(tokens@));
    }
    tokens
}

} // verus!
