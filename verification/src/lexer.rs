//! Lex the source code into tokens.

use vstd::prelude::*;
use vstd::string::StrSliceExecFns;
use vstd::string::StringExecFns;

verus! {

/// One lexical token.
#[derive(PartialEq, Eq, Debug)]
pub enum Token {
    LeftParen,
    RightParen,
    LeftBrace,
    RightBrace,
    Assignment,
    Num(u16),
    Let,
    If,
    For,
    While,
    Loop,
    Else,
    Fn,
    /// An identifier or other word that is not a keyword.
    Name(String),
    Equal,
    Plus,
    PlusEq,
    Minus,
    MinusEq,
}

/// The characters that end a token.
pub open spec fn is_boundary(c: char) -> bool {
    c == ' ' || c == '\t' || c == '\n' || c == '(' || c == ')' || c == '{' || c == '}' || c == '.'
        || c == '='
}

/// The characters stripped as whitespace between tokens.
///
/// Only ASCII whitespace is recognized: exotic Unicode whitespace (form
/// feed, no-break space, and the like) is treated as ordinary text and ends
/// up inside name tokens.
pub open spec fn is_space(c: char) -> bool {
    c == ' ' || c == '\t' || c == '\n' || c == '\r'
}

/// A decimal digit.
pub open spec fn is_digit(c: char) -> bool {
    '0' <= c && c <= '9'
}

/// The index of the first token-boundary character, or the length when
/// there is none.
pub open spec fn scan_len(s: Seq<char>) -> int
    decreases s.len(),
{
    if s.len() == 0 {
        0
    } else if is_boundary(s[0]) {
        0
    } else {
        1 + scan_len(s.drop_first())
    }
}

/// The number of leading whitespace characters.
pub open spec fn ws_prefix_len(s: Seq<char>) -> int
    decreases s.len(),
{
    if s.len() == 0 {
        0
    } else if is_space(s[0]) {
        1 + ws_prefix_len(s.drop_first())
    } else {
        0
    }
}

/// The number of trailing whitespace characters.
pub open spec fn ws_suffix_len(s: Seq<char>) -> int
    decreases s.len(),
{
    if s.len() == 0 {
        0
    } else if is_space(s.last()) {
        1 + ws_suffix_len(s.drop_last())
    } else {
        0
    }
}

/// The text with leading and trailing whitespace stripped.
pub open spec fn trim_spec(s: Seq<char>) -> Seq<char> {
    let t = s.skip(ws_prefix_len(s));
    t.take(t.len() - ws_suffix_len(t))
}

/// Every character is a decimal digit.
pub open spec fn all_digits(s: Seq<char>) -> bool {
    forall|i: int| 0 <= i < s.len() ==> is_digit(#[trigger] s[i])
}

/// The decimal value of a digit string.
pub open spec fn digits_val(s: Seq<char>) -> int
    decreases s.len(),
{
    if s.len() == 0 {
        0
    } else {
        digits_val(s.drop_last()) * 10 + (s.last() as int - '0' as int)
    }
}

/// The remaining text carries a lexable numeric token: when it starts with a
/// digit, the whole scanned token is digits and its value fits in `u16`.
pub open spec fn num_token_ok(s: Seq<char>) -> bool {
    s.len() > 0 && is_digit(s[0]) ==> {
        let w = s.take(scan_len(s));
        all_digits(w) && digits_val(w) <= u16::MAX as int
    }
}

/// The characters a token consumes, starting at the front of the text.
pub open spec fn spec_token_end(s: Seq<char>) -> int
    recommends
        s.len() > 0,
{
    let c = s[0];
    if c == '(' || c == ')' || c == '{' || c == '}' {
        1
    } else if c == '=' || c == '+' || c == '-' {
        if s.len() > 1 && s[1] == '=' {
            2
        } else {
            1
        }
    } else {
        scan_len(s)
    }
}

/// The remaining text after lexing one token: the token's characters are
/// consumed and the following whitespace is stripped.
pub open spec fn suffix_after(s: Seq<char>) -> Seq<char> {
    let rest = s.skip(spec_token_end(s));
    rest.skip(ws_prefix_len(rest))
}

/// The token that the front of the text lexes to.
pub open spec fn token_matches(s: Seq<char>, t: Token) -> bool
    recommends
        s.len() > 0,
{
    let c = s[0];
    let two = s.len() > 1 && s[1] == '=';
    if c == '(' {
        t == Token::LeftParen
    } else if c == ')' {
        t == Token::RightParen
    } else if c == '{' {
        t == Token::LeftBrace
    } else if c == '}' {
        t == Token::RightBrace
    } else if c == '=' {
        t == if two {
            Token::Equal
        } else {
            Token::Assignment
        }
    } else if c == '+' {
        t == if two {
            Token::PlusEq
        } else {
            Token::Plus
        }
    } else if c == '-' {
        t == if two {
            Token::MinusEq
        } else {
            Token::Minus
        }
    } else if is_digit(c) {
        t matches Token::Num(n) && n as int == digits_val(s.take(scan_len(s)))
    } else {
        let w = s.take(scan_len(s));
        if w =~= seq!['l', 'e', 't'] {
            t == Token::Let
        } else if w =~= seq!['i', 'f'] {
            t == Token::If
        } else if w =~= seq!['f', 'o', 'r'] {
            t == Token::For
        } else if w =~= seq!['w', 'h', 'i', 'l', 'e'] {
            t == Token::While
        } else if w =~= seq!['l', 'o', 'o', 'p'] {
            t == Token::Loop
        } else if w =~= seq!['e', 'l', 's', 'e'] {
            t == Token::Else
        } else if w =~= seq!['f', 'n'] {
            t == Token::Fn
        } else {
            t matches Token::Name(name) && name@ == w
        }
    }
}

/// A text whose first `i` characters are not boundaries, and whose `i`-th
/// is one (or ends at `i`), scans to exactly `i`.
proof fn lemma_scan_len_at(s: Seq<char>, i: int)
    requires
        0 <= i <= s.len(),
        forall|j: int| 0 <= j < i ==> !is_boundary(#[trigger] s[j]),
        i < s.len() ==> is_boundary(s[i]),
    ensures
        scan_len(s) == i,
    decreases i,
{
    if i == 0 {
    } else {
        assert(!is_boundary(s[0]));
        lemma_scan_len_at(s.drop_first(), i - 1);
    }
}

/// The same, for leading whitespace.
proof fn lemma_ws_prefix_at(s: Seq<char>, i: int)
    requires
        0 <= i <= s.len(),
        forall|j: int| 0 <= j < i ==> is_space(#[trigger] s[j]),
        i < s.len() ==> !is_space(s[i]),
    ensures
        ws_prefix_len(s) == i,
    decreases i + s.len(),
{
    if s.len() == 0 {
    } else if i == 0 {
    } else {
        lemma_ws_prefix_at(s.drop_first(), i - 1);
    }
}

/// The same, for trailing whitespace: everything from `j` on is whitespace
/// and the character before `j`, if any, is not.
proof fn lemma_ws_suffix_at(s: Seq<char>, j: int)
    requires
        0 <= j <= s.len(),
        forall|k: int| j <= k < s.len() ==> is_space(#[trigger] s[k]),
        j > 0 ==> !is_space(s[j - 1]),
    ensures
        ws_suffix_len(s) == s.len() - j,
    decreases s.len(),
{
    if s.len() == 0 {
    } else if j == s.len() {
    } else {
        assert(is_space(s.last()));
        lemma_ws_suffix_at(s.drop_last(), j);
    }
}

/// A digit string's value is nonnegative.
proof fn lemma_digits_val_nonneg(s: Seq<char>)
    requires
        all_digits(s),
    ensures
        digits_val(s) >= 0,
    decreases s.len(),
{
    if s.len() > 0 {
        assert(all_digits(s.drop_last()));
        lemma_digits_val_nonneg(s.drop_last());
    }
}

/// The value of a prefix of a digit string never exceeds the whole value.
proof fn lemma_digits_prefix_le(s: Seq<char>, i: int)
    requires
        all_digits(s),
        0 <= i <= s.len(),
    ensures
        digits_val(s.take(i)) <= digits_val(s),
    decreases s.len() - i,
{
    if i == s.len() {
        assert(s.take(i) =~= s);
    } else {
        assert(s.take(i + 1).drop_last() =~= s.take(i));
        assert(all_digits(s.take(i)));
        lemma_digits_val_nonneg(s.take(i));
        lemma_digits_prefix_le(s, i + 1);
    }
}

/// Whether a character ends a token.
fn token_bound(c: char) -> (r: bool)
    ensures
        r == is_boundary(c),
{
    c == ' ' || c == '\t' || c == '\n' || c == '(' || c == ')' || c == '{' || c == '}' || c == '.'
        || c == '='
}

/// Scans till the end of the token, returning the index of the end of the
/// token.
pub fn scan_token(string: &str) -> (r: usize)
    ensures
        r as int == scan_len(string@),
        r <= string@.len(),
{
    let len = string.unicode_len();
    for i in 0..len
        invariant
            len == string@.len(),
            forall|j: int| 0 <= j < i ==> !is_boundary(#[trigger] string@[j]),
    {
        if token_bound(string.get_char(i)) {
            proof {
                lemma_scan_len_at(string@, i as int);
            }
            return i;
        }
    }
    proof {
        lemma_scan_len_at(string@, len as int);
    }
    len
}

/// Strip leading whitespace.
fn trim_left_str<'a>(s: &'a str) -> (r: &'a str)
    ensures
        r@ == s@.skip(ws_prefix_len(s@)),
{
    let len = s.unicode_len();
    for i in 0..len
        invariant
            len == s@.len(),
            forall|j: int| 0 <= j < i ==> is_space(#[trigger] s@[j]),
    {
        let c = s.get_char(i);
        if !(c == ' ' || c == '\t' || c == '\n' || c == '\r') {
            proof {
                lemma_ws_prefix_at(s@, i as int);
            }
            return s.substring_char(i, len);
        }
    }
    proof {
        lemma_ws_prefix_at(s@, len as int);
        assert(s@.skip(len as int) =~= s@.subrange(len as int, len as int));
    }
    s.substring_char(len, len)
}

/// Strip trailing whitespace.
fn trim_right_str<'a>(s: &'a str) -> (r: &'a str)
    ensures
        r@ == s@.take(s@.len() - ws_suffix_len(s@)),
{
    let len = s.unicode_len();
    let mut j: usize = len;
    loop
        invariant
            len == s@.len(),
            0 <= j <= len,
            forall|k: int| j <= k < len ==> is_space(#[trigger] s@[k]),
        decreases j,
    {
        if j == 0 {
            proof {
                lemma_ws_suffix_at(s@, 0);
            }
            return s.substring_char(0, 0);
        }
        let c = s.get_char(j - 1);
        if c == ' ' || c == '\t' || c == '\n' || c == '\r' {
            j = j - 1;
        } else {
            proof {
                lemma_ws_suffix_at(s@, j as int);
            }
            return s.substring_char(0, j);
        }
    }
}

/// The decimal value of a string of digits.
fn parse_u16(s: &str) -> (r: u16)
    requires
        all_digits(s@),
        digits_val(s@) <= u16::MAX as int,
    ensures
        r as int == digits_val(s@),
{
    let len = s.unicode_len();
    let mut val: u32 = 0;
    for i in 0..len
        invariant
            len == s@.len(),
            all_digits(s@),
            digits_val(s@) <= u16::MAX as int,
            val as int == digits_val(s@.take(i as int)),
            val <= u16::MAX,
    {
        let c = s.get_char(i);
        let d = (c as u32) - ('0' as u32);
        proof {
            assert(is_digit(s@[i as int]));
            assert(s@.take(i as int + 1).drop_last() =~= s@.take(i as int));
            lemma_digits_prefix_le(s@, i as int + 1);
        }
        val = val * 10 + d;
    }
    proof {
        assert(s@.take(len as int) =~= s@);
    }
    val as u16
}

/// The lexer: holds the text not yet consumed.
pub struct Lexer<'a> {
    remaining: &'a str,
}

impl<'a> View for Lexer<'a> {
    type V = Seq<char>;

    /// The characters not yet consumed.
    closed spec fn view(&self) -> Seq<char> {
        self.remaining@
    }
}

impl<'a> Lexer<'a> {
    /// A lexer over the given source text, with surrounding whitespace
    /// stripped.
    pub fn new(source: &'a str) -> (lexer: Lexer<'a>)
        ensures
            lexer@ == trim_spec(source@),
    {
        let l = trim_left_str(source);
        Lexer { remaining: trim_right_str(l) }
    }

    /// Lex one token off the front of the remaining text.
    ///
    /// Returns `None` when the text is exhausted.  A numeric token that is
    /// not a valid `u16` is excluded by precondition: the original input is
    /// rejected before lexing.
    pub fn next(&mut self) -> (r: Option<Token>)
        requires
            num_token_ok(old(self)@),
        ensures
            old(self)@.len() == 0 ==> r is None && final(self)@ == old(self)@,
            old(self)@.len() > 0 ==> (r matches Some(t) && token_matches(old(self)@, t)) && final(self)@ == suffix_after(old(self)@),
    {
        let rem: &'a str = self.remaining;
        let len = rem.unicode_len();
        if len == 0 {
            return None;
        }

        let c0 = rem.get_char(0);
        let mut token_end: usize = 1;
        let token: Token;
        if c0 == '(' {
            token = Token::LeftParen;
        } else if c0 == ')' {
            token = Token::RightParen;
        } else if c0 == '{' {
            token = Token::LeftBrace;
        } else if c0 == '}' {
            token = Token::RightBrace;
        } else if c0 == '=' {
            if len > 1 && rem.get_char(1) == '=' {
                token_end = 2;
                token = Token::Equal;
            } else {
                token = Token::Assignment;
            }
        } else if c0 == '+' {
            if len > 1 && rem.get_char(1) == '=' {
                token_end = 2;
                token = Token::PlusEq;
            } else {
                token = Token::Plus;
            }
        } else if c0 == '-' {
            if len > 1 && rem.get_char(1) == '=' {
                token_end = 2;
                token = Token::MinusEq;
            } else {
                token = Token::Minus;
            }
        } else if '0' <= c0 && c0 <= '9' {
            token_end = scan_token(rem);
            let text = rem.substring_char(0, token_end);
            token = Token::Num(parse_u16(text));
        } else {
            token_end = scan_token(rem);
            let w = |k: usize| -> (c: char)
                requires
                    k < token_end,
                    token_end <= rem@.len(),
                ensures
                    c == rem@[k as int],
                { rem.get_char(k) };
            if token_end == 3 && w(0) == 'l' && w(1) == 'e' && w(2) == 't' {
                token = Token::Let;
            } else if token_end == 2 && w(0) == 'i' && w(1) == 'f' {
                token = Token::If;
            } else if token_end == 3 && w(0) == 'f' && w(1) == 'o' && w(2) == 'r' {
                token = Token::For;
            } else if token_end == 5 && w(0) == 'w' && w(1) == 'h' && w(2) == 'i' && w(3) == 'l'
                && w(4) == 'e' {
                token = Token::While;
            } else if token_end == 4 && w(0) == 'l' && w(1) == 'o' && w(2) == 'o' && w(3) == 'p' {
                token = Token::Loop;
            } else if token_end == 4 && w(0) == 'e' && w(1) == 'l' && w(2) == 's' && w(3) == 'e' {
                token = Token::Else;
            } else if token_end == 2 && w(0) == 'f' && w(1) == 'n' {
                token = Token::Fn;
            } else {
                let text = rem.substring_char(0, token_end);
                token = Token::Name(String::from_str(text));
            }
        }

        let rest = rem.substring_char(token_end, len);
        self.remaining = trim_left_str(rest);
        Some(token)
    }
}

} // verus!
