use vstd::prelude::*;
use vstd::string::*;
use crate::assembly::{int_text, push_int};
use crate::ast::{ast_text, Ast, CompileError, Operator, Source};

verus! {

/// Lexical tokens of the source language.
#[derive(Clone, Copy, Debug, PartialEq, Eq, Structural)]
pub enum Token {
    Var(i32),
    Num(i32),
    OpenBracket,
    ClosedBracket,
    OpenParen,
    ClosedParen,
    Plus,
    Dash,
    Star,
    Slash,
}

pub open spec fn is_alpha(c: char) -> bool {
    ('a' <= c && c <= 'z') || ('A' <= c && c <= 'Z')
}

pub open spec fn is_digit(c: char) -> bool {
    '0' <= c && c <= '9'
}

/// White space as Unicode defines it (the characters of `char::is_whitespace`).
pub open spec fn is_space(c: char) -> bool {
    ||| '\u{9}' <= c <= '\u{D}'
    ||| c == ' '
    ||| c == '\u{85}'
    ||| c == '\u{A0}'
    ||| c == '\u{1680}'
    ||| '\u{2000}' <= c <= '\u{200A}'
    ||| c == '\u{2028}'
    ||| c == '\u{2029}'
    ||| c == '\u{202F}'
    ||| c == '\u{205F}'
    ||| c == '\u{3000}'
}

pub open spec fn in_class(c: char, alpha: bool) -> bool {
    if alpha {
        is_alpha(c)
    } else {
        is_digit(c)
    }
}

/// The token a one-character symbol stands for.
pub open spec fn symbol_token(c: char) -> Option<Token> {
    if c == '[' {
        Some(Token::OpenBracket)
    } else if c == ']' {
        Some(Token::ClosedBracket)
    } else if c == '(' {
        Some(Token::OpenParen)
    } else if c == ')' {
        Some(Token::ClosedParen)
    } else if c == '+' {
        Some(Token::Plus)
    } else if c == '-' {
        Some(Token::Dash)
    } else if c == '*' {
        Some(Token::Star)
    } else if c == '/' {
        Some(Token::Slash)
    } else {
        None
    }
}

/// End of the maximal run of letters (or of digits) that starts at `i`.
pub open spec fn run_end(s: Seq<char>, i: int, alpha: bool) -> int
    decreases s.len() - i,
{
    if 0 <= i < s.len() && in_class(s[i], alpha) {
        run_end(s, i + 1, alpha)
    } else {
        i
    }
}

/// The number a string of decimal digits denotes.
pub open spec fn digits_value(d: Seq<char>) -> nat
    decreases d.len(),
{
    if d.len() == 0 {
        0
    } else {
        digits_value(d.drop_last()) * 10 + (d.last() as nat - '0' as nat) as nat
    }
}

pub open spec fn prepend_all(p: Seq<Token>, r: Result<Seq<Token>, CompileError>) -> Result<
    Seq<Token>,
    CompileError,
> {
    match r {
        Ok(t) => Ok(p + t),
        Err(e) => Err(e),
    }
}

/// Index of a name: its position among the names seen so far, or the next free one.
pub open spec fn name_index(names: Seq<Seq<char>>, w: Seq<char>) -> int {
    if names.contains(w) {
        names.index_of(w)
    } else {
        names.len() as int
    }
}

pub open spec fn add_name(names: Seq<Seq<char>>, w: Seq<char>) -> Seq<Seq<char>> {
    if names.contains(w) {
        names
    } else {
        names.push(w)
    }
}

/// Tokens of `s` from position `i` on, given the names already numbered.
pub open spec fn lex_from(s: Seq<char>, i: int, names: Seq<Seq<char>>) -> Result<
    Seq<Token>,
    CompileError,
>
    decreases s.len() - i,
    via lex_from_decreases
{
    if i < 0 || i >= s.len() {
        Ok(Seq::empty())
    } else if is_alpha(s[i]) {
        let j = run_end(s, i, true);
        let w = s.subrange(i, j);
        let k = name_index(names, w);
        if k > i32::MAX {
            Err(CompileError::TooManyNames)
        } else {
            prepend_all(seq![Token::Var(k as i32)], lex_from(s, j, add_name(names, w)))
        }
    } else if is_digit(s[i]) {
        let j = run_end(s, i, false);
        let v = digits_value(s.subrange(i, j));
        if v > i32::MAX {
            Err(CompileError::LiteralOutOfRange)
        } else {
            prepend_all(seq![Token::Num(v as i32)], lex_from(s, j, names))
        }
    } else if is_space(s[i]) {
        lex_from(s, i + 1, names)
    } else {
        match symbol_token(s[i]) {
            Some(t) => prepend_all(seq![t], lex_from(s, i + 1, names)),
            None => Err(CompileError::InvalidCharacter),
        }
    }
}

pub proof fn lemma_run_end_bounds(s: Seq<char>, i: int, alpha: bool)
    requires
        0 <= i <= s.len(),
    ensures
        i <= run_end(s, i, alpha) <= s.len(),
        i < s.len() && in_class(s[i], alpha) ==> i < run_end(s, i, alpha),
    decreases s.len() - i,
{
    if 0 <= i < s.len() && in_class(s[i], alpha) {
        lemma_run_end_bounds(s, i + 1, alpha);
    }
}

#[via_fn]
proof fn lex_from_decreases(s: Seq<char>, i: int, names: Seq<Seq<char>>) {
    if 0 <= i < s.len() {
        lemma_run_end_bounds(s, i, true);
        lemma_run_end_bounds(s, i, false);
    }
}

/// Tokens of a whole source text.
pub open spec fn lex(s: Seq<char>) -> Result<Seq<Token>, CompileError> {
    lex_from(s, 0, Seq::empty())
}

} // verus!

verus! {

proof fn lemma_prepend_all_push(p: Seq<Token>, t: Token, r: Result<Seq<Token>, CompileError>)
    ensures
        prepend_all(p, prepend_all(seq![t], r)) == prepend_all(p.push(t), r),
{
    if let Ok(x) = r {
        assert(p + (seq![t] + x) =~= p.push(t) + x);
    }
}

pub proof fn lemma_run_end_at(s: Seq<char>, i: int, j: int, alpha: bool)
    requires
        0 <= i <= j <= s.len(),
        forall|k: int| i <= k < j ==> in_class(#[trigger] s[k], alpha),
        j == s.len() || !in_class(s[j], alpha),
    ensures
        run_end(s, i, alpha) == j,
    decreases j - i,
{
    if i < j {
        lemma_run_end_at(s, i + 1, j, alpha);
    }
}

fn is_alpha_char(c: char) -> (r: bool)
    ensures
        r == is_alpha(c),
{
    ('a' <= c && c <= 'z') || ('A' <= c && c <= 'Z')
}

fn is_space_char(c: char) -> (r: bool)
    ensures
        r == is_space(c),
{
    ('\u{9}' <= c && c <= '\u{D}') || c == ' ' || c == '\u{85}' || c == '\u{A0}' || c
        == '\u{1680}' || ('\u{2000}' <= c && c <= '\u{200A}') || c == '\u{2028}' || c
        == '\u{2029}' || c == '\u{202F}' || c == '\u{205F}' || c == '\u{3000}'
}

pub fn is_digit_char(c: char) -> (r: bool)
    ensures
        r == is_digit(c),
{
    '0' <= c && c <= '9'
}

fn symbol(c: char) -> (r: Option<Token>)
    ensures
        r == symbol_token(c),
{
    if c == '[' {
        Some(Token::OpenBracket)
    } else if c == ']' {
        Some(Token::ClosedBracket)
    } else if c == '(' {
        Some(Token::OpenParen)
    } else if c == ')' {
        Some(Token::ClosedParen)
    } else if c == '+' {
        Some(Token::Plus)
    } else if c == '-' {
        Some(Token::Dash)
    } else if c == '*' {
        Some(Token::Star)
    } else if c == '/' {
        Some(Token::Slash)
    } else {
        None
    }
}

fn same_chars(a: &Vec<char>, b: &Vec<char>) -> (r: bool)
    ensures
        r == (a@ == b@),
{
    if a.len() != b.len() {
        return false;
    }
    let mut k: usize = 0;
    while k < a.len()
        invariant
            a@.len() == b@.len(),
            k <= a@.len(),
            forall|m: int| 0 <= m < k ==> a@[m] == b@[m],
        decreases a@.len() - k,
    {
        if a[k] != b[k] {
            return false;
        }
        k = k + 1;
    }
    assert(a@ =~= b@);
    true
}

/// Position of `w` in `names`, which hold no name twice.
fn find_name(names: &Vec<Vec<char>>, w: &Vec<char>, ghost_names: Ghost<Seq<Seq<char>>>) -> (r:
    Option<usize>)
    requires
        names@.len() == ghost_names@.len(),
        forall|k: int| 0 <= k < names@.len() ==> (#[trigger] names@[k])@ == ghost_names@[k],
        ghost_names@.no_duplicates(),
    ensures
        match r {
            Some(k) => ghost_names@.contains(w@) && k as int == ghost_names@.index_of(w@),
            None => !ghost_names@.contains(w@),
        },
{
    let ghost g = ghost_names@;
    let mut k: usize = 0;
    while k < names.len()
        invariant
            k <= names@.len(),
            g == ghost_names@,
            g.no_duplicates(),
            names@.len() == g.len(),
            forall|m: int| 0 <= m < names@.len() ==> (#[trigger] names@[m])@ == g[m],
            forall|m: int| 0 <= m < k ==> g[m] != w@,
        decreases names@.len() - k,
    {
        if same_chars(&names[k], w) {
            assert(g[k as int] == w@);
            assert(g.contains(w@));
            let ghost j = g.index_of(w@);
            proof {
                assert(g[j] == w@);
                if j != k as int {
                    assert(g[j] != g[k as int]);
                }
            }
            return Some(k);
        }
        k = k + 1;
    }
    assert(!g.contains(w@)) by {
        if g.contains(w@) {
            let j = choose|j: int| 0 <= j < g.len() && g[j] == w@;
            assert(g[j] == w@);
        }
    }
    None
}

} // verus!

verus! {

/// Recursive-descent parser over the tokens of one program.
#[derive(Debug)]
pub struct Parser<'a> {
    pub program: &'a str,
    pub tokens: Vec<Token>,
    pub current: usize,
    pub ast: Ast,
}

impl<'a> Default for Parser<'a> {
    fn default() -> (r: Self)
        ensures
            r.program@.len() == 0,
            r.tokens@.len() == 0,
            r.current == 0,
            r.ast == Ast::Value(Source::Imm, 0),
    {
        proof {
            reveal_strlit("");
        }
        Parser { program: "", tokens: Vec::new(), current: 0, ast: Ast::Value(Source::Imm, 0) }
    }
}

impl<'a> Parser<'a> {
    /// Splits the program into tokens and keeps them. Names are numbered from zero
    /// in the order in which they first occur.
    pub fn tokenize(&mut self) -> (r: Result<Vec<Token>, CompileError>)
        ensures
            final(self).program == old(self).program,
            final(self).current == old(self).current,
            match lex(old(self).program@) {
                Ok(ts) => r matches Ok(v) && v@ == ts && final(self).tokens@ == ts,
                Err(e) => r == Err::<Vec<Token>, CompileError>(e),
            },
    {
        let s = self.program;
        let n = s.unicode_len();
        let mut tokens: Vec<Token> = Vec::new();
        let mut names: Vec<Vec<char>> = Vec::new();
        let ghost mut gnames: Seq<Seq<char>> = Seq::empty();
        let mut i: usize = 0;
        assert(tokens@ + Seq::<Token>::empty() =~= Seq::<Token>::empty());
        while i < n
            invariant
                n == s@.len(),
                i <= n,
                s == self.program,
                self.program == old(self).program,
                self.current == old(self).current,
                names@.len() == gnames.len(),
                forall|k: int| 0 <= k < names@.len() ==> (#[trigger] names@[k])@ == gnames[k],
                gnames.no_duplicates(),
                lex(s@) == prepend_all(tokens@, lex_from(s@, i as int, gnames)),
            decreases n - i,
        {
            let c = s.get_char(i);
            let ghost before = tokens@;
            if is_alpha_char(c) {
                let mut word: Vec<char> = Vec::new();
                let mut j: usize = i;
                while j < n && is_alpha_char(s.get_char(j))
                    invariant
                        n == s@.len(),
                        i <= j <= n,
                        word@ == s@.subrange(i as int, j as int),
                        forall|k: int| i <= k < j ==> is_alpha(#[trigger] s@[k]),
                    decreases n - j,
                {
                    let d = s.get_char(j);
                    word.push(d);
                    j = j + 1;
                    assert(word@ =~= s@.subrange(i as int, j as int));
                }
                proof {
                    lemma_run_end_at(s@, i as int, j as int, true);
                }
                let ghost w = word@;
                let k = match find_name(&names, &word, Ghost(gnames)) {
                    Some(k) => k,
                    None => {
                        let k = names.len();
                        names.push(word);
                        proof {
                            assert forall|a: int, b: int|
                                0 <= a < gnames.push(w).len() && 0 <= b < gnames.push(w).len()
                                    && a != b implies gnames.push(w)[a] != gnames.push(w)[b] by {
                                if a == gnames.len() {
                                    assert(gnames.contains(gnames[b]));
                                } else if b == gnames.len() {
                                    assert(gnames.contains(gnames[a]));
                                }
                            }
                            gnames = gnames.push(w);
                        }
                        k
                    },
                };
                if k > 2147483647 {
                    return Err(CompileError::TooManyNames);
                }
                tokens.push(Token::Var(k as i32));
                proof {
                    lemma_prepend_all_push(before, Token::Var(k as i32), lex_from(s@, j as int, gnames));
                }
                i = j;
            } else if is_digit_char(c) {
                let mut j: usize = i;
                let mut acc: u32 = 0;
                let mut over = false;
                while j < n && is_digit_char(s.get_char(j))
                    invariant
                        n == s@.len(),
                        i <= j <= n,
                        forall|k: int| i <= k < j ==> is_digit(#[trigger] s@[k]),
                        over ==> digits_value(s@.subrange(i as int, j as int)) > i32::MAX,
                        !over ==> acc as nat == digits_value(s@.subrange(i as int, j as int))
                            && acc <= i32::MAX,
                    decreases n - j,
                {
                    let d = s.get_char(j);
                    let dv = (d as u32) - ('0' as u32);
                    let ghost prev = s@.subrange(i as int, j as int);
                    assert(s@.subrange(i as int, j + 1).drop_last() =~= prev);
                    assert(s@.subrange(i as int, j + 1).last() == d);
                    if !over {
                        if acc > 214748364 {
                            over = true;
                        } else {
                            let next = acc * 10 + dv;
                            if next > 2147483647 {
                                over = true;
                            } else {
                                acc = next;
                            }
                        }
                    }
                    j = j + 1;
                }
                proof {
                    lemma_run_end_at(s@, i as int, j as int, false);
                }
                if over {
                    return Err(CompileError::LiteralOutOfRange);
                }
                tokens.push(Token::Num(acc as i32));
                proof {
                    lemma_prepend_all_push(before, Token::Num(acc as i32), lex_from(s@, j as int, gnames));
                }
                i = j;
            } else if is_space_char(c) {
                i = i + 1;
            } else {
                match symbol(c) {
                    Some(t) => {
                        tokens.push(t);
                        proof {
                            lemma_prepend_all_push(before, t, lex_from(s@, i + 1, gnames));
                        }
                    },
                    None => {
                        return Err(CompileError::InvalidCharacter);
                    },
                }
                i = i + 1;
            }
        }
        assert(tokens@ + Seq::<Token>::empty() =~= tokens@);
        self.tokens = tokens;
        let out = self.tokens.clone();
        assert(out@ =~= self.tokens@);
        Ok(out)
    }
}

} // verus!

verus! {

pub open spec fn additive(t: Token) -> Option<Operator> {
    match t {
        Token::Plus => Some(Operator::Add),
        Token::Dash => Some(Operator::Sub),
        _ => None,
    }
}

pub open spec fn multiplicative(t: Token) -> Option<Operator> {
    match t {
        Token::Star => Some(Operator::Mul),
        Token::Slash => Some(Operator::Div),
        _ => None,
    }
}

/// `atom := name | number | '(' expression ')'` at `pos`: the tree and the position after it.
pub open spec fn atom_at(ts: Seq<Token>, pos: int) -> Option<(Ast, int)>
    decreases ts.len() - pos, 0int,
{
    if pos < 0 || pos >= ts.len() {
        None
    } else {
        match ts[pos] {
            Token::Var(i) => Some((Ast::Value(Source::Arg, i), pos + 1)),
            Token::Num(n) => Some((Ast::Value(Source::Imm, n), pos + 1)),
            Token::OpenParen => match expression_at(ts, pos + 1) {
                Some((e, p)) => if 0 <= p < ts.len() && ts[p] == Token::ClosedParen {
                    Some((e, p + 1))
                } else {
                    None
                },
                None => None,
            },
            _ => None,
        }
    }
}

/// The `('*'|'/') atom` repetitions that follow `acc`, combined from the left.
pub open spec fn factor_rest(ts: Seq<Token>, pos: int, acc: Ast) -> Option<(Ast, int)>
    decreases ts.len() - pos, 0int,
{
    if 0 <= pos < ts.len() && multiplicative(ts[pos]) is Some {
        match atom_at(ts, pos + 1) {
            Some((b, p)) => if pos + 1 < p <= ts.len() {
                factor_rest(
                    ts,
                    p,
                    Ast::BinOp(multiplicative(ts[pos])->0, Box::new(acc), Box::new(b)),
                )
            } else {
                None
            },
            None => None,
        }
    } else {
        Some((acc, pos))
    }
}

/// `factor := atom (('*'|'/') atom)*` at `pos`.
pub open spec fn factor_at(ts: Seq<Token>, pos: int) -> Option<(Ast, int)>
    decreases ts.len() - pos, 1int,
{
    if pos < 0 || pos >= ts.len() {
        None
    } else {
        match atom_at(ts, pos) {
            Some((a, p)) => if pos < p <= ts.len() {
                factor_rest(ts, p, a)
            } else {
                None
            },
            None => None,
        }
    }
}

/// The `('+'|'-') factor` repetitions that follow `acc`, combined from the left.
pub open spec fn expression_rest(ts: Seq<Token>, pos: int, acc: Ast) -> Option<(Ast, int)>
    decreases ts.len() - pos, 0int,
{
    if 0 <= pos < ts.len() && additive(ts[pos]) is Some {
        match factor_at(ts, pos + 1) {
            Some((b, p)) => if pos + 1 < p <= ts.len() {
                expression_rest(
                    ts,
                    p,
                    Ast::BinOp(additive(ts[pos])->0, Box::new(acc), Box::new(b)),
                )
            } else {
                None
            },
            None => None,
        }
    } else {
        Some((acc, pos))
    }
}

/// `expression := factor (('+'|'-') factor)*` at `pos`.
pub open spec fn expression_at(ts: Seq<Token>, pos: int) -> Option<(Ast, int)>
    decreases ts.len() - pos, 2int,
{
    if pos < 0 || pos >= ts.len() {
        None
    } else {
        match factor_at(ts, pos) {
            Some((a, p)) => if pos < p <= ts.len() {
                expression_rest(ts, p, a)
            } else {
                None
            },
            None => None,
        }
    }
}

/// Position of the first closing bracket at or after `k`.
pub open spec fn close_from(ts: Seq<Token>, k: int) -> Option<int>
    decreases ts.len() - k,
{
    if k < 0 || k >= ts.len() {
        None
    } else if ts[k] == Token::ClosedBracket {
        Some(k)
    } else {
        close_from(ts, k + 1)
    }
}

/// The tree of a token sequence: one expression right after the first closing
/// bracket, running to the last token.
pub open spec fn parse_tokens(ts: Seq<Token>) -> Result<Ast, CompileError> {
    match close_from(ts, 0) {
        None => Err(CompileError::MalformedProgram),
        Some(k) => match expression_at(ts, k + 1) {
            Some((t, p)) => if p == ts.len() {
                Ok(t)
            } else {
                Err(CompileError::MalformedProgram)
            },
            None => Err(CompileError::MalformedProgram),
        },
    }
}

/// The tree of a source text.
pub open spec fn parse_program(s: Seq<char>) -> Result<Ast, CompileError> {
    match lex(s) {
        Ok(ts) => parse_tokens(ts),
        Err(e) => Err(e),
    }
}

} // verus!

verus! {

impl<'a> Parser<'a> {
    /// Whether `r` and the position `cur` are what a grammar rule gave.
    pub open spec fn parsed(r: Option<Ast>, rule: Option<(Ast, int)>, start: int, cur: int) -> bool {
        match rule {
            Some((t, p)) => r == Some(t) && cur == p && start < p,
            None => r is None,
        }
    }

    /// The parser is back on the same program and tokens, at a valid position.
    pub open spec fn same_input(&self, before: &Self) -> bool {
        &&& self.program == before.program
        &&& self.tokens == before.tokens
        &&& self.current <= self.tokens@.len()
    }

    fn next_token(&self) -> (r: Option<Token>)
        ensures
            r == (if self.current < self.tokens@.len() {
                Some(self.tokens@[self.current as int])
            } else {
                None::<Token>
            }),
    {
        if self.current < self.tokens.len() {
            Some(self.tokens[self.current])
        } else {
            None
        }
    }

    fn consume(&mut self)
        requires
            old(self).current < old(self).tokens@.len(),
        ensures
            final(self).current == old(self).current + 1,
            final(self).program == old(self).program,
            final(self).tokens == old(self).tokens,
    {
        let n = self.tokens.len();
        assert(self.current < n);
        self.current = self.current + 1;
    }

    fn parse_expression(&mut self) -> (r: Option<Ast>)
        requires
            old(self).current <= old(self).tokens@.len(),
        ensures
            final(self).same_input(old(self)),
            Self::parsed(
                r,
                expression_at(old(self).tokens@, old(self).current as int),
                old(self).current as int,
                final(self).current as int,
            ),
        decreases old(self).tokens@.len() - old(self).current, 2int,
    {
        let ghost ts = self.tokens@;
        let ghost pos0 = self.current as int;
        if self.current >= self.tokens.len() {
            return None;
        }
        let mut node = match self.parse_factor() {
            Some(n) => n,
            None => return None,
        };
        loop
            invariant
                self.same_input(old(self)),
                ts == self.tokens@,
                ts == old(self).tokens@,
                pos0 == old(self).current as int,
                pos0 < self.current,
                expression_at(ts, pos0) == expression_rest(ts, self.current as int, node),
            ensures
                self.same_input(old(self)),
                pos0 < self.current,
                expression_at(ts, pos0) == Some((node, self.current as int)),
            decreases ts.len() - self.current,
        {
            let op = match self.next_token() {
                Some(Token::Plus) => Operator::Add,
                Some(Token::Dash) => Operator::Sub,
                _ => break,
            };
            self.consume();
            let rhs = match self.parse_factor() {
                Some(f) => f,
                None => return None,
            };
            node = Ast::binop(op, node, rhs);
        }
        Some(node)
    }

    fn parse_factor(&mut self) -> (r: Option<Ast>)
        requires
            old(self).current <= old(self).tokens@.len(),
        ensures
            final(self).same_input(old(self)),
            Self::parsed(
                r,
                factor_at(old(self).tokens@, old(self).current as int),
                old(self).current as int,
                final(self).current as int,
            ),
        decreases old(self).tokens@.len() - old(self).current, 1int,
    {
        let ghost ts = self.tokens@;
        let ghost pos0 = self.current as int;
        if self.current >= self.tokens.len() {
            return None;
        }
        let mut node = match self.parse_atom() {
            Some(n) => n,
            None => return None,
        };
        loop
            invariant
                self.same_input(old(self)),
                ts == self.tokens@,
                ts == old(self).tokens@,
                pos0 == old(self).current as int,
                pos0 < self.current,
                factor_at(ts, pos0) == factor_rest(ts, self.current as int, node),
            ensures
                self.same_input(old(self)),
                pos0 < self.current,
                factor_at(ts, pos0) == Some((node, self.current as int)),
            decreases ts.len() - self.current,
        {
            let op = match self.next_token() {
                Some(Token::Star) => Operator::Mul,
                Some(Token::Slash) => Operator::Div,
                _ => break,
            };
            self.consume();
            let rhs = match self.parse_atom() {
                Some(a) => a,
                None => return None,
            };
            node = Ast::binop(op, node, rhs);
        }
        Some(node)
    }

    fn parse_atom(&mut self) -> (r: Option<Ast>)
        requires
            old(self).current <= old(self).tokens@.len(),
        ensures
            final(self).same_input(old(self)),
            Self::parsed(
                r,
                atom_at(old(self).tokens@, old(self).current as int),
                old(self).current as int,
                final(self).current as int,
            ),
        decreases old(self).tokens@.len() - old(self).current, 0int,
    {
        match self.next_token() {
            Some(Token::Var(i)) => {
                self.consume();
                Some(Ast::Value(Source::Arg, i))
            },
            Some(Token::Num(n)) => {
                self.consume();
                Some(Ast::Value(Source::Imm, n))
            },
            Some(Token::OpenParen) => {
                self.consume();
                let e = match self.parse_expression() {
                    Some(e) => e,
                    None => return None,
                };
                match self.next_token() {
                    Some(Token::ClosedParen) => {
                        self.consume();
                        Some(e)
                    },
                    _ => None,
                }
            },
            _ => None,
        }
    }

    /// Parses `program`: the expression after the first closing bracket, which must
    /// use every remaining token.
    pub fn parse(&mut self, program: &'a str) -> (r: Result<Ast, CompileError>)
        ensures
            final(self).program == program,
            r == parse_program(program@),
            r matches Ok(t) ==> final(self).ast == t,
    {
        self.program = program;
        match self.tokenize() {
            Ok(_) => {},
            Err(e) => return Err(e),
        }
        let ghost ts = self.tokens@;
        let n = self.tokens.len();
        let mut k: usize = 0;
        while k < n && self.tokens[k] != Token::ClosedBracket
            invariant
                n == ts.len(),
                ts == self.tokens@,
                k <= n,
                close_from(ts, 0) == close_from(ts, k as int),
            decreases n - k,
        {
            k = k + 1;
        }
        if k == n {
            return Err(CompileError::MalformedProgram);
        }
        self.current = k + 1;
        match self.parse_expression() {
            Some(t) => {
                if self.current == n {
                    self.ast = t.copy();
                    Ok(t)
                } else {
                    Err(CompileError::MalformedProgram)
                }
            },
            None => Err(CompileError::MalformedProgram),
        }
    }
}

} // verus!

verus! {

/// Name of a token as Rust's debug notation writes it: `Plus`, `Var(0)`.
pub open spec fn token_text(t: Token) -> Seq<char> {
    match t {
        Token::Var(i) => seq!['V', 'a', 'r', '('] + int_text(i as int) + seq![')'],
        Token::Num(n) => seq!['N', 'u', 'm', '('] + int_text(n as int) + seq![')'],
        Token::OpenBracket => "OpenBracket"@,
        Token::ClosedBracket => "ClosedBracket"@,
        Token::OpenParen => "OpenParen"@,
        Token::ClosedParen => "ClosedParen"@,
        Token::Plus => "Plus"@,
        Token::Dash => "Dash"@,
        Token::Star => "Star"@,
        Token::Slash => "Slash"@,
    }
}

/// The tokens of `ts`, separated by `, `.
pub open spec fn tokens_text(ts: Seq<Token>) -> Seq<char>
    decreases ts.len(),
{
    if ts.len() == 0 {
        Seq::empty()
    } else if ts.len() == 1 {
        token_text(ts[0])
    } else {
        tokens_text(ts.drop_last()) + ", "@ + token_text(ts.last())
    }
}

fn push_token(out: &mut String, t: Token)
    ensures
        final(out)@ == old(out)@ + token_text(t),
{
    proof {
        reveal_strlit("Var(");
        reveal_strlit("Num(");
        reveal_strlit(")");
    }
    match t {
        Token::Var(i) => {
            out.append("Var(");
            push_int(out, i);
            out.append(")");
            assert(final(out)@ =~= old(out)@ + token_text(t));
        },
        Token::Num(n) => {
            out.append("Num(");
            push_int(out, n);
            out.append(")");
            assert(final(out)@ =~= old(out)@ + token_text(t));
        },
        Token::OpenBracket => out.append("OpenBracket"),
        Token::ClosedBracket => out.append("ClosedBracket"),
        Token::OpenParen => out.append("OpenParen"),
        Token::ClosedParen => out.append("ClosedParen"),
        Token::Plus => out.append("Plus"),
        Token::Dash => out.append("Dash"),
        Token::Star => out.append("Star"),
        Token::Slash => out.append("Slash"),
    }
}

impl<'a> Parser<'a> {
    pub open spec fn describe_text(&self) -> Seq<char> {
        "Parser state:\nprogram: "@ + self.program@ + "\ntokens: ["@ + tokens_text(self.tokens@)
            + "]\nast: "@ + ast_text(self.ast)
    }

    /// The program, its tokens and the last tree parsed.
    pub fn describe(&self) -> (r: String)
        ensures
            r@ == self.describe_text(),
    {
        let mut out = String::from_str("Parser state:\nprogram: ");
        out.append(self.program);
        out.append("\ntokens: [");
        let ghost head = out@;
        let n = self.tokens.len();
        let mut i: usize = 0;
        while i < n
            invariant
                n == self.tokens@.len(),
                i <= n,
                out@ == head + tokens_text(self.tokens@.subrange(0, i as int)),
            decreases n - i,
        {
            let ghost done = self.tokens@.subrange(0, i as int);
            assert(self.tokens@.subrange(0, i + 1).drop_last() =~= done);
            if i > 0 {
                out.append(", ");
            }
            push_token(&mut out, self.tokens[i]);
            proof {
                if i == 0 {
                    assert(self.tokens@.subrange(0, 1) =~= seq![self.tokens@[0]]);
                }
            }
            assert(out@ =~= head + tokens_text(self.tokens@.subrange(0, i + 1)));
            i = i + 1;
        }
        assert(self.tokens@.subrange(0, n as int) =~= self.tokens@);
        out.append("]\nast: ");
        out.append(self.ast.to_text().as_str());
        out
    }
}

} // verus!
