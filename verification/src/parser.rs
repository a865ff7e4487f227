//! Tokenizer for the postfix scripting language.
//!
//! The grammar, tried in this order at each non-whitespace position:
//! a parenthesized comment `( ... )` (body non-empty, closed by the first
//! `)`), a string literal `~ ... ~` (body non-empty, no escapes), one of a
//! fixed set of symbolic operators starting with `.`, or a signed 32-bit
//! integer literal. Whitespace after a token is consumed greedily; it is not
//! required between delimiter-bounded tokens.

use vstd::prelude::*;
use vstd::string::*;

verus! {

/// A classified lexical unit of the language.
#[derive(Debug, PartialEq, Eq)]
pub enum Token {
    Comment(String),
    Str(String),
    Int(i32),
    Add,
    Sub,
    Mul,
    Div,
    Mod,
    Equal,
    LargerThan,
    Dup,
    Swap,
    Cjump,
    Print,
    Newline,
}

/// The mathematical model of a token: string payloads become `Seq<char>`.
pub enum TokenModel {
    Comment(Seq<char>),
    Str(Seq<char>),
    Int(i32),
    Add,
    Sub,
    Mul,
    Div,
    Mod,
    Equal,
    LargerThan,
    Dup,
    Swap,
    Cjump,
    Print,
    Newline,
}

impl View for Token {
    type V = TokenModel;

    open spec fn view(&self) -> TokenModel {
        match self {
            Token::Comment(s) => TokenModel::Comment(s@),
            Token::Str(s) => TokenModel::Str(s@),
            Token::Int(i) => TokenModel::Int(*i),
            Token::Add => TokenModel::Add,
            Token::Sub => TokenModel::Sub,
            Token::Mul => TokenModel::Mul,
            Token::Div => TokenModel::Div,
            Token::Mod => TokenModel::Mod,
            Token::Equal => TokenModel::Equal,
            Token::LargerThan => TokenModel::LargerThan,
            Token::Dup => TokenModel::Dup,
            Token::Swap => TokenModel::Swap,
            Token::Cjump => TokenModel::Cjump,
            Token::Print => TokenModel::Print,
            Token::Newline => TokenModel::Newline,
        }
    }
}

/// The model of a token sequence.
pub open spec fn tokens_model(ts: Seq<Token>) -> Seq<TokenModel> {
    Seq::new(ts.len(), |k: int| ts[k]@)
}

/// The whitespace class used both for the initial trim and as the separator
/// consumed after each token: space, tab, carriage return, line feed.
pub open spec fn is_space(c: char) -> bool {
    c == ' ' || c == '\t' || c == '\r' || c == '\n'
}

/// Numeric value of a decimal digit character; -1 for a non-digit.
pub open spec fn digit_val(c: char) -> int {
    if c == '0' {
        0
    } else if c == '1' {
        1
    } else if c == '2' {
        2
    } else if c == '3' {
        3
    } else if c == '4' {
        4
    } else if c == '5' {
        5
    } else if c == '6' {
        6
    } else if c == '7' {
        7
    } else if c == '8' {
        8
    } else if c == '9' {
        9
    } else {
        -1
    }
}

pub open spec fn is_digit(c: char) -> bool {
    digit_val(c) >= 0
}

/// Index of the first non-whitespace character at or after `i`, or `s.len()`.
pub open spec fn space_end(s: Seq<char>, i: int) -> int
    decreases s.len() - i,
{
    if 0 <= i < s.len() && is_space(s[i]) {
        space_end(s, i + 1)
    } else {
        i
    }
}

/// Index of the first occurrence of `stop` at or after `i`, or `s.len()`.
pub open spec fn scan_until(s: Seq<char>, i: int, stop: char) -> int
    decreases s.len() - i,
{
    if 0 <= i < s.len() {
        if s[i] == stop {
            i
        } else {
            scan_until(s, i + 1, stop)
        }
    } else {
        i
    }
}

/// Index just past the run of decimal digits starting at `i`.
pub open spec fn digit_end(s: Seq<char>, i: int) -> int
    decreases s.len() - i,
{
    if 0 <= i < s.len() && is_digit(s[i]) {
        digit_end(s, i + 1)
    } else {
        i
    }
}

/// Numeric value of the decimal digit run `s[i..j)`.
pub open spec fn digits_val(s: Seq<char>, i: int, j: int) -> int
    decreases j - i,
{
    if i < j {
        digits_val(s, i, j - 1) * 10 + digit_val(s[j - 1])
    } else {
        0
    }
}

pub proof fn lemma_space_end(s: Seq<char>, i: int)
    requires
        0 <= i <= s.len(),
    ensures
        i <= space_end(s, i) <= s.len(),
        space_end(s, i) < s.len() ==> !is_space(s[space_end(s, i)]),
    decreases s.len() - i,
{
    if i < s.len() && is_space(s[i]) {
        lemma_space_end(s, i + 1);
    }
}

/// The scan is pinned down by its defining properties: it stops at the
/// first occurrence of `stop`, whatever else the scanned range holds.
pub proof fn lemma_scan_until_unique(s: Seq<char>, i: int, stop: char, j: int)
    requires
        0 <= i <= j < s.len(),
        s[j] == stop,
        forall|k: int| i <= k < j ==> s[k] != stop,
    ensures
        scan_until(s, i, stop) == j,
    decreases j - i,
{
    if i < j {
        lemma_scan_until_unique(s, i + 1, stop, j);
    }
}

pub proof fn lemma_digit_end(s: Seq<char>, i: int)
    requires
        0 <= i <= s.len(),
    ensures
        i <= digit_end(s, i) <= s.len(),
        digit_end(s, i) < s.len() ==> !is_digit(s[digit_end(s, i)]),
        forall|k: int| i <= k < digit_end(s, i) ==> is_digit(s[k]),
    decreases s.len() - i,
{
    if i < s.len() && is_digit(s[i]) {
        lemma_digit_end(s, i + 1);
    }
}

pub proof fn lemma_digits_val_bounds(s: Seq<char>, i: int, j: int)
    requires
        i <= j,
        forall|k: int| i <= k < j ==> is_digit(s[k]),
    ensures
        digits_val(s, i, j) >= 0,
    decreases j - i,
{
    if i < j {
        lemma_digits_val_bounds(s, i, j - 1);
    }
}

/// Operator lookup at position `i`, where `s[i] == '.'`: the matched token
/// and the index just past the operator text. The operator set is
/// prefix-free (the character after the dot decides), so greedy
/// longest-first matching reduces to this condition chain.
pub open spec fn op_end(s: Seq<char>, i: int) -> Option<(TokenModel, int)> {
    if i + 2 <= s.len() && s[i + 1] == '+' {
        Some((TokenModel::Add, i + 2))
    } else if i + 2 <= s.len() && s[i + 1] == '-' {
        Some((TokenModel::Sub, i + 2))
    } else if i + 2 <= s.len() && s[i + 1] == '*' {
        Some((TokenModel::Mul, i + 2))
    } else if i + 2 <= s.len() && s[i + 1] == '/' {
        Some((TokenModel::Div, i + 2))
    } else if i + 4 <= s.len() && s[i + 1] == 'm' && s[i + 2] == 'o' && s[i + 3] == 'd' {
        Some((TokenModel::Mod, i + 4))
    } else if i + 3 <= s.len() && s[i + 1] == '=' && s[i + 2] == '?' {
        Some((TokenModel::Equal, i + 3))
    } else if i + 3 <= s.len() && s[i + 1] == '>' && s[i + 2] == '?' {
        Some((TokenModel::LargerThan, i + 3))
    } else if i + 4 <= s.len() && s[i + 1] == 'd' && s[i + 2] == 'u' && s[i + 3] == 'p' {
        Some((TokenModel::Dup, i + 4))
    } else if i + 5 <= s.len() && s[i + 1] == 's' && s[i + 2] == 'w' && s[i + 3] == 'a' && s[i + 4]
        == 'p' {
        Some((TokenModel::Swap, i + 5))
    } else if i + 6 <= s.len() && s[i + 1] == 'c' && s[i + 2] == 'j' && s[i + 3] == 'u' && s[i + 4]
        == 'm' && s[i + 5] == 'p' {
        Some((TokenModel::Cjump, i + 6))
    } else if i + 6 <= s.len() && s[i + 1] == 'p' && s[i + 2] == 'r' && s[i + 3] == 'i' && s[i + 4]
        == 'n' && s[i + 5] == 't' {
        Some((TokenModel::Print, i + 6))
    } else if i + 8 <= s.len() && s[i + 1] == 'n' && s[i + 2] == 'e' && s[i + 3] == 'w' && s[i + 4]
        == 'l' && s[i + 5] == 'i' && s[i + 6] == 'n' && s[i + 7] == 'e' {
        Some((TokenModel::Newline, i + 8))
    } else {
        None
    }
}

/// The token starting at position `i` (a non-whitespace position inside
/// `s`), together with the index of the next token after it — that is,
/// just past the token's text and the whitespace run following it — or
/// `None` if no grammar alternative matches at `i`.
pub open spec fn next_token(s: Seq<char>, i: int) -> Option<(TokenModel, int)> {
    if !(0 <= i < s.len()) {
        None
    } else if s[i] == '(' {
        let j = scan_until(s, i + 1, ')');
        if j < s.len() && j > i + 1 {
            Some((TokenModel::Comment(s.subrange(i + 1, j)), space_end(s, j + 1)))
        } else {
            None
        }
    } else if s[i] == '~' {
        let j = scan_until(s, i + 1, '~');
        if j < s.len() && j > i + 1 {
            Some((TokenModel::Str(s.subrange(i + 1, j)), space_end(s, j + 1)))
        } else {
            None
        }
    } else if s[i] == '.' {
        match op_end(s, i) {
            Some((t, j)) => Some((t, space_end(s, j))),
            None => None,
        }
    } else if s[i] == '-' || is_digit(s[i]) {
        let start = if s[i] == '-' {
            i + 1
        } else {
            i
        };
        if start < s.len() && is_digit(s[start]) {
            let j = digit_end(s, start);
            let mag = digits_val(s, start, j);
            let v = if s[i] == '-' {
                -mag
            } else {
                mag
            };
            if (i32::MIN as int) <= v && v <= (i32::MAX as int) {
                Some((TokenModel::Int(v as i32), space_end(s, j)))
            } else {
                None
            }
        } else {
            None
        }
    } else {
        None
    }
}

/// The token sequence starting at position `i`, or `None` if the text
/// from `i` on does not tokenize. `i` must sit on a token boundary: the
/// start of a token, or the end of the input.
pub open spec fn tokens_from(s: Seq<char>, i: int) -> Option<Seq<TokenModel>>
    decreases s.len() - i,
{
    if !(0 <= i <= s.len()) {
        None
    } else if i == s.len() {
        Some(Seq::<TokenModel>::empty())
    } else {
        match next_token(s, i) {
            None => None,
            Some((t, j)) => {
                if i < j <= s.len() {
                    match tokens_from(s, j) {
                        None => None,
                        Some(rest) => Some(seq![t] + rest),
                    }
                } else {
                    None
                }
            },
        }
    }
}

/// The tokenization of a whole source text: leading whitespace is
/// skipped, then tokens are read greedily until the end of the input.
/// `None` means the text does not parse.
pub open spec fn tokenize(s: Seq<char>) -> Option<Seq<TokenModel>> {
    tokens_from(s, space_end(s, 0))
}

/// Comment tokens carry no runtime effect; this removes them.
pub open spec fn strip_comments(ts: Seq<TokenModel>) -> Seq<TokenModel> {
    ts.filter(|t: TokenModel| !(t is Comment))
}

/// A well-formed script that holds only comments tokenizes, and after
/// comment-filtering its executable token sequence is empty.
pub proof fn lemma_comments_only_strip_to_empty(s: Seq<char>, ts: Seq<TokenModel>)
    requires
        tokenize(s) == Some(ts),
        forall|k: int| 0 <= k < ts.len() ==> ts[k] is Comment,
    ensures
        strip_comments(ts) == Seq::<TokenModel>::empty(),
{
    let pred = |t: TokenModel| !(t is Comment);
    assert(ts.all(|t: TokenModel| !pred(t))) by {
        reveal(Seq::all);
    }
    ts.lemma_all_neg_filter_empty(pred);
    assert(strip_comments(ts) =~= Seq::<TokenModel>::empty());
}

/// A comment body does not nest: whatever the body holds — an unmatched
/// `(` included — the first `)` after the opening `(` closes the comment,
/// and the body is exactly the text between the two delimiters.
pub proof fn lemma_comment_closes_at_first_paren(s: Seq<char>, i: int, j: int)
    requires
        0 <= i,
        i + 1 < j < s.len(),
        s[i] == '(',
        s[j] == ')',
        forall|k: int| i < k < j ==> s[k] != ')',
    ensures
        next_token(s, i) == Some(
            (TokenModel::Comment(s.subrange(i + 1, j)), space_end(s, j + 1)),
        ),
{
    lemma_scan_until_unique(s, i + 1, ')', j);
}

impl Clone for Token {
    fn clone(&self) -> (res: Self)
        ensures
            res@ == self@,
    {
        match self {
            Token::Comment(s) => Token::Comment(s.clone()),
            Token::Str(s) => Token::Str(s.clone()),
            Token::Int(i) => Token::Int(*i),
            Token::Add => Token::Add,
            Token::Sub => Token::Sub,
            Token::Mul => Token::Mul,
            Token::Div => Token::Div,
            Token::Mod => Token::Mod,
            Token::Equal => Token::Equal,
            Token::LargerThan => Token::LargerThan,
            Token::Dup => Token::Dup,
            Token::Swap => Token::Swap,
            Token::Cjump => Token::Cjump,
            Token::Print => Token::Print,
            Token::Newline => Token::Newline,
        }
    }
}

/// A failed tokenization: `pos` is the character position (counted in
/// characters of the whole source text) at which no grammar alternative
/// matched.
#[derive(Debug, Clone, Copy, PartialEq, Eq)]
pub struct ParseError {
    pub pos: usize,
}

fn space_char(c: char) -> (b: bool)
    ensures
        b == is_space(c),
{
    c == ' ' || c == '\t' || c == '\r' || c == '\n'
}

fn digit_char(c: char) -> (b: bool)
    ensures
        b == is_digit(c),
{
    c == '0' || c == '1' || c == '2' || c == '3' || c == '4' || c == '5' || c == '6' || c == '7'
        || c == '8' || c == '9'
}

fn digit_value(c: char) -> (d: u32)
    requires
        is_digit(c),
    ensures
        d as int == digit_val(c),
{
    if c == '0' {
        0
    } else if c == '1' {
        1
    } else if c == '2' {
        2
    } else if c == '3' {
        3
    } else if c == '4' {
        4
    } else if c == '5' {
        5
    } else if c == '6' {
        6
    } else if c == '7' {
        7
    } else if c == '8' {
        8
    } else {
        9
    }
}

fn skip_spaces(s: &str, from: usize) -> (r: usize)
    requires
        from <= s@.len(),
    ensures
        r as int == space_end(s@, from as int),
        from <= r <= s@.len(),
{
    let n = s.unicode_len();
    let mut i = from;
    while i < n && space_char(s.get_char(i))
        invariant
            from <= i <= n,
            n == s@.len(),
            space_end(s@, from as int) == space_end(s@, i as int),
        decreases n - i,
    {
        i = i + 1;
    }
    i
}

fn scan_to(s: &str, from: usize, stop: char) -> (r: usize)
    requires
        from <= s@.len(),
    ensures
        r as int == scan_until(s@, from as int, stop),
        from <= r <= s@.len(),
{
    let n = s.unicode_len();
    let mut i = from;
    while i < n && s.get_char(i) != stop
        invariant
            from <= i <= n,
            n == s@.len(),
            scan_until(s@, from as int, stop) == scan_until(s@, i as int, stop),
        decreases n - i,
    {
        i = i + 1;
    }
    i
}

fn digit_scan(s: &str, from: usize) -> (r: usize)
    requires
        from <= s@.len(),
    ensures
        r as int == digit_end(s@, from as int),
        from <= r <= s@.len(),
{
    let n = s.unicode_len();
    let mut i = from;
    while i < n && digit_char(s.get_char(i))
        invariant
            from <= i <= n,
            n == s@.len(),
            digit_end(s@, from as int) == digit_end(s@, i as int),
        decreases n - i,
    {
        i = i + 1;
    }
    i
}

/// The operator starting at the `.` in position `i`, with the index just
/// past its text, or `None` if no operator of the fixed set matches there.
fn match_op(s: &str, i: usize) -> (r: Option<(Token, usize)>)
    requires
        i < s@.len(),
    ensures
        match r {
            Some(p) => op_end(s@, i as int) == Some((p.0@, p.1 as int)) && i < p.1 <= s@.len(),
            None => op_end(s@, i as int) is None,
        },
{
    let n = s.unicode_len();
    if n - i >= 2 && s.get_char(i + 1) == '+' {
        Some((Token::Add, i + 2))
    } else if n - i >= 2 && s.get_char(i + 1) == '-' {
        Some((Token::Sub, i + 2))
    } else if n - i >= 2 && s.get_char(i + 1) == '*' {
        Some((Token::Mul, i + 2))
    } else if n - i >= 2 && s.get_char(i + 1) == '/' {
        Some((Token::Div, i + 2))
    } else if n - i >= 4 && s.get_char(i + 1) == 'm' && s.get_char(i + 2) == 'o' && s.get_char(
        i + 3,
    ) == 'd' {
        Some((Token::Mod, i + 4))
    } else if n - i >= 3 && s.get_char(i + 1) == '=' && s.get_char(i + 2) == '?' {
        Some((Token::Equal, i + 3))
    } else if n - i >= 3 && s.get_char(i + 1) == '>' && s.get_char(i + 2) == '?' {
        Some((Token::LargerThan, i + 3))
    } else if n - i >= 4 && s.get_char(i + 1) == 'd' && s.get_char(i + 2) == 'u' && s.get_char(
        i + 3,
    ) == 'p' {
        Some((Token::Dup, i + 4))
    } else if n - i >= 5 && s.get_char(i + 1) == 's' && s.get_char(i + 2) == 'w' && s.get_char(
        i + 3,
    ) == 'a' && s.get_char(i + 4) == 'p' {
        Some((Token::Swap, i + 5))
    } else if n - i >= 6 && s.get_char(i + 1) == 'c' && s.get_char(i + 2) == 'j' && s.get_char(
        i + 3,
    ) == 'u' && s.get_char(i + 4) == 'm' && s.get_char(i + 5) == 'p' {
        Some((Token::Cjump, i + 6))
    } else if n - i >= 6 && s.get_char(i + 1) == 'p' && s.get_char(i + 2) == 'r' && s.get_char(
        i + 3,
    ) == 'i' && s.get_char(i + 4) == 'n' && s.get_char(i + 5) == 't' {
        Some((Token::Print, i + 6))
    } else if n - i >= 8 && s.get_char(i + 1) == 'n' && s.get_char(i + 2) == 'e' && s.get_char(
        i + 3,
    ) == 'w' && s.get_char(i + 4) == 'l' && s.get_char(i + 5) == 'i' && s.get_char(i + 6) == 'n'
        && s.get_char(i + 7) == 'e' {
        Some((Token::Newline, i + 8))
    } else {
        None
    }
}

/// Reads the token starting at position `i` and returns it with the
/// position of the next token (whitespace after the token consumed), or
/// the position of the failure.
fn read_token(s: &str, i: usize) -> (r: Result<(Token, usize), ParseError>)
    requires
        i < s@.len(),
    ensures
        match r {
            Ok(p) => {
                &&& next_token(s@, i as int) == Some((p.0@, p.1 as int))
                &&& i < p.1 <= s@.len()
                &&& (p.1 < s@.len() ==> !is_space(s@[p.1 as int]))
            },
            Err(e) => next_token(s@, i as int) is None && e.pos == i,
        },
{
    let n = s.unicode_len();
    let c = s.get_char(i);
    if c == '(' || c == '~' {
        let stop = if c == '(' {
            ')'
        } else {
            '~'
        };
        let j = scan_to(s, i + 1, stop);
        if j < n && j > i + 1 {
            let body = s.substring_char(i + 1, j).to_owned();
            let end = skip_spaces(s, j + 1);
            proof {
                lemma_space_end(s@, j as int + 1);
            }
            if c == '(' {
                Ok((Token::Comment(body), end))
            } else {
                Ok((Token::Str(body), end))
            }
        } else {
            Err(ParseError { pos: i })
        }
    } else if c == '.' {
        match match_op(s, i) {
            Some((tok, j)) => {
                let end = skip_spaces(s, j);
                proof {
                    lemma_space_end(s@, j as int);
                }
                Ok((tok, end))
            },
            None => Err(ParseError { pos: i }),
        }
    } else if c == '-' || digit_char(c) {
        let start = if c == '-' {
            i + 1
        } else {
            i
        };
        if start < n && digit_char(s.get_char(start)) {
            let j = digit_scan(s, start);
            proof {
                lemma_digit_end(s@, start as int);
            }
            let neg = c == '-';
            let bound: u64 = if neg {
                2147483648
            } else {
                2147483647
            };
            // Accumulate the digit run's value, saturating at a cap above
            // the 32-bit range so that an over-long literal is still
            // detected without unbounded arithmetic.
            let cap: u64 = 10000000000;
            let mut acc: u64 = 0;
            let mut k = start;
            while k < j
                invariant
                    start <= k <= j,
                    j as int == digit_end(s@, start as int),
                    j <= s@.len(),
                    n == s@.len(),
                    forall|m: int| start <= m < j ==> is_digit(s@[m]),
                    acc <= cap,
                    cap == 10000000000,
                    digits_val(s@, start as int, k as int) <= cap as int ==> acc as int
                        == digits_val(s@, start as int, k as int),
                    digits_val(s@, start as int, k as int) > cap as int ==> acc == cap,
                decreases j - k,
            {
                let d = digit_value(s.get_char(k));
                proof {
                    lemma_digits_val_bounds(s@, start as int, k as int);
                }
                let t = acc * 10 + (d as u64);
                if t > cap {
                    acc = cap;
                } else {
                    acc = t;
                }
                k = k + 1;
            }
            if acc <= bound {
                let v: i32 = if neg {
                    (-(acc as i64)) as i32
                } else {
                    acc as i32
                };
                let end = skip_spaces(s, j);
                proof {
                    lemma_space_end(s@, j as int);
                    lemma_digits_val_bounds(s@, start as int, j as int);
                }
                Ok((Token::Int(v), end))
            } else {
                Err(ParseError { pos: i })
            }
        } else {
            Err(ParseError { pos: i })
        }
    } else {
        Err(ParseError { pos: i })
    }
}

/// Tokenizes a whole source text, comments included. `Ok` exactly when
/// the text tokenizes, and then the result is the full token sequence;
/// `Err` exactly when it does not.
pub fn parse(s: &str) -> (r: Result<Vec<Token>, ParseError>)
    ensures
        match r {
            Ok(ts) => tokenize(s@) == Some(tokens_model(ts@)),
            Err(e) => tokenize(s@) is None && e.pos < s@.len() && next_token(
                s@,
                e.pos as int,
            ) is None,
        },
{
    let n = s.unicode_len();
    let mut i = skip_spaces(s, 0);
    let mut ts: Vec<Token> = Vec::new();
    proof {
        lemma_space_end(s@, 0);
        assert(tokens_model(ts@) =~= Seq::<TokenModel>::empty());
        if tokens_from(s@, i as int) is Some {
            assert(tokens_model(ts@) + tokens_from(s@, i as int).unwrap() =~= tokens_from(
                s@,
                i as int,
            ).unwrap());
        }
    }
    while i < n
        invariant
            i <= n,
            n == s@.len(),
            i < n ==> !is_space(s@[i as int]),
            tokenize(s@) == (match tokens_from(s@, i as int) {
                Some(rest) => Some(tokens_model(ts@) + rest),
                None => None::<Seq<TokenModel>>,
            }),
        decreases n - i,
    {
        match read_token(s, i) {
            Err(e) => {
                return Err(e);
            },
            Ok((t, j)) => {
                proof {
                    let ghost rest = tokens_from(s@, j as int);
                    assert(tokens_from(s@, i as int) == (match rest {
                        Some(r2) => Some(seq![t@] + r2),
                        None => None::<Seq<TokenModel>>,
                    }));
                    assert(tokens_model(ts@.push(t)) =~= tokens_model(ts@).push(t@));
                    if rest is Some {
                        assert(tokens_model(ts@) + (seq![t@] + rest.unwrap()) =~= tokens_model(
                            ts@.push(t),
                        ) + rest.unwrap());
                    }
                }
                ts.push(t);
                i = j;
            },
        }
    }
    proof {
        assert(tokens_model(ts@) + Seq::<TokenModel>::empty() =~= tokens_model(ts@));
    }
    Ok(ts)
}

/// Tokenizes a source text and removes all comment tokens: the sequence
/// handed to the execution engine. Succeeds exactly when `parse` does.
pub fn parse_ignore_comments(s: &str) -> (r: Result<Vec<Token>, ParseError>)
    ensures
        match r {
            Ok(ts) => match tokenize(s@) {
                Some(all) => tokens_model(ts@) == strip_comments(all),
                None => false,
            },
            Err(e) => tokenize(s@) is None && e.pos < s@.len() && next_token(
                s@,
                e.pos as int,
            ) is None,
        },
{
    match parse(s) {
        Err(e) => Err(e),
        Ok(all) => {
            let ghost pred = |t: TokenModel| !(t is Comment);
            let mut out: Vec<Token> = Vec::new();
            let mut k: usize = 0;
            proof {
                assert(tokens_model(out@) =~= tokens_model(all@).take(0).filter(pred));
            }
            while k < all.len()
                invariant
                    k <= all@.len(),
                    pred == (|t: TokenModel| !(t is Comment)),
                    tokens_model(out@) == tokens_model(all@).take(k as int).filter(pred),
                decreases all@.len() - k,
            {
                let t = &all[k];
                proof {
                    let ghost prefix = tokens_model(all@).take(k as int);
                    assert(tokens_model(all@).take(k as int + 1) =~= prefix + seq![all@[k as int]@]);
                    Seq::<TokenModel>::filter_distributes_over_add(
                        prefix,
                        seq![all@[k as int]@],
                        pred,
                    );
                    reveal_with_fuel(Seq::filter, 2);
                    if pred(all@[k as int]@) {
                        assert(seq![all@[k as int]@].filter(pred) =~= seq![all@[k as int]@]);
                    } else {
                        assert(seq![all@[k as int]@].filter(pred) =~= Seq::<TokenModel>::empty());
                    }
                }
                if !(matches!(t, Token::Comment(_))) {
                    let c = t.clone();
                    proof {
                        assert(tokens_model(out@.push(c)) =~= tokens_model(out@).push(c@));
                        assert(tokens_model(out@).push(all@[k as int]@) =~= tokens_model(out@)
                            + seq![all@[k as int]@]);
                    }
                    out.push(c);
                } else {
                    proof {
                        assert(tokens_model(out@) + Seq::<TokenModel>::empty() =~= tokens_model(
                            out@,
                        ));
                    }
                }
                k = k + 1;
            }
            proof {
                assert(tokens_model(all@).take(all@.len() as int) =~= tokens_model(all@));
            }
            Ok(out)
        },
    }
}

} // verus!
