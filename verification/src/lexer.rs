//! The lexer: classifies source characters into tokens.
//!
//! Tokenization is specified exactly by [`spec_next`], a recursive function
//! over the character sequence: whitespace and unrecognised characters are
//! skipped, punctuation maps to fixed tokens, `=` doubles into the equality
//! token, quoted text becomes a string literal, digit runs (together with
//! any following dots) become a number whose value is the leading digit
//! run's decimal value (saturating at the 64-bit limit), and identifier
//! runs become keywords or identifiers. Identifiers are ASCII letters,
//! digits and underscores; whitespace is the ASCII blank, tab, newline and
//! carriage return.

use vstd::prelude::*;
use vstd::string::{StringExecFns, StrSliceExecFns};

verus! {

/// One token of the source language.
#[derive(Debug)]
pub enum Token {
    Class,
    Is,
    Done,
    Local,
    Print,
    Get,
    At,
    Assign,
    Dot,
    New,
    If,
    Then,
    While,
    Do,
    Greater,
    Less,
    Equal,
    Plus,
    Minus,
    Star,
    Slash,
    Comma,
    Rest,
    Quest,
    Percent,
    LeftBracket,
    RightBracket,
    Identifier(String),
    Number(u64),
    StringLit(String),
    EOF,
}

/// The mathematical model of a [`Token`]: identical except that embedded
/// strings are character sequences.
pub ghost enum TokenV {
    Class,
    Is,
    Done,
    Local,
    Print,
    Get,
    At,
    Assign,
    Dot,
    New,
    If,
    Then,
    While,
    Do,
    Greater,
    Less,
    Equal,
    Plus,
    Minus,
    Star,
    Slash,
    Comma,
    Rest,
    Quest,
    Percent,
    LeftBracket,
    RightBracket,
    Identifier(Seq<char>),
    Number(u64),
    StringLit(Seq<char>),
    EOF,
}

impl DeepView for Token {
    type V = TokenV;

    open spec fn deep_view(&self) -> TokenV {
        match *self {
            Token::Class => TokenV::Class,
            Token::Is => TokenV::Is,
            Token::Done => TokenV::Done,
            Token::Local => TokenV::Local,
            Token::Print => TokenV::Print,
            Token::Get => TokenV::Get,
            Token::At => TokenV::At,
            Token::Assign => TokenV::Assign,
            Token::Dot => TokenV::Dot,
            Token::New => TokenV::New,
            Token::If => TokenV::If,
            Token::Then => TokenV::Then,
            Token::While => TokenV::While,
            Token::Do => TokenV::Do,
            Token::Greater => TokenV::Greater,
            Token::Less => TokenV::Less,
            Token::Equal => TokenV::Equal,
            Token::Plus => TokenV::Plus,
            Token::Minus => TokenV::Minus,
            Token::Star => TokenV::Star,
            Token::Slash => TokenV::Slash,
            Token::Comma => TokenV::Comma,
            Token::Rest => TokenV::Rest,
            Token::Quest => TokenV::Quest,
            Token::Percent => TokenV::Percent,
            Token::LeftBracket => TokenV::LeftBracket,
            Token::RightBracket => TokenV::RightBracket,
            Token::Identifier(ref s) => TokenV::Identifier(s@),
            Token::Number(n) => TokenV::Number(n),
            Token::StringLit(ref s) => TokenV::StringLit(s@),
            Token::EOF => TokenV::EOF,
        }
    }
}

/// ASCII whitespace.
pub open spec fn is_space_char(c: char) -> bool {
    c == ' ' || c == '\t' || c == '\n' || c == '\r'
}

/// ASCII decimal digit.
pub open spec fn is_digit_char(c: char) -> bool {
    48 <= c as u32 && c as u32 <= 57
}

/// ASCII letter or underscore: the start of an identifier.
pub open spec fn is_ident_start_char(c: char) -> bool {
    (65 <= c as u32 && c as u32 <= 90) || (97 <= c as u32 && c as u32 <= 122) || c == '_'
}

/// A character that may continue an identifier.
pub open spec fn is_ident_char(c: char) -> bool {
    is_ident_start_char(c) || is_digit_char(c)
}

/// The first position at or after `i` that cannot continue an identifier.
pub open spec fn ident_end(s: Seq<char>, i: nat) -> nat
    decreases s.len() - i,
{
    if i < s.len() && is_ident_char(s[i as int]) {
        ident_end(s, i + 1)
    } else {
        i
    }
}

/// The first position at or after `i` that is not a digit.
pub open spec fn digits_end(s: Seq<char>, i: nat) -> nat
    decreases s.len() - i,
{
    if i < s.len() && is_digit_char(s[i as int]) {
        digits_end(s, i + 1)
    } else {
        i
    }
}

/// The first position at or after `i` that is neither a digit nor a dot.
pub open spec fn number_end(s: Seq<char>, i: nat) -> nat
    decreases s.len() - i,
{
    if i < s.len() && (is_digit_char(s[i as int]) || s[i as int] == '.') {
        number_end(s, i + 1)
    } else {
        i
    }
}

/// The first position at or after `i` holding a closing quote (or the end).
pub open spec fn string_end(s: Seq<char>, i: nat) -> nat
    decreases s.len() - i,
{
    if i < s.len() && s[i as int] != '"' {
        string_end(s, i + 1)
    } else {
        i
    }
}

/// The decimal value of the digits at positions `[i, j)`.
pub open spec fn digits_val(s: Seq<char>, i: nat, j: nat) -> nat
    decreases j - i,
{
    if j <= i {
        0
    } else {
        (digits_val(s, i, (j - 1) as nat) * 10 + (s[j - 1] as u32 - 48)) as nat
    }
}

/// The number of dots among the characters at positions `[i, j)`.
pub open spec fn run_dots(s: Seq<char>, i: nat, j: nat) -> nat
    decreases j - i,
{
    if j <= i {
        0
    } else {
        (run_dots(s, i, (j - 1) as nat) + (if s[j - 1] == '.' {
            1nat
        } else {
            0nat
        })) as nat
    }
}

/// The value of the number token starting at `i`. A run holding more than
/// one dot is not a well-formed decimal literal and falls back to value 0;
/// otherwise the value is the leading digit run's decimal value (a single
/// trailing fraction is truncated away), saturating at the 64-bit limit.
pub open spec fn num_value(s: Seq<char>, i: nat) -> u64 {
    if run_dots(s, i, number_end(s, i)) >= 2 {
        0
    } else {
        let dv = digits_val(s, i, digits_end(s, i));
        if dv <= u64::MAX {
            dv as u64
        } else {
            u64::MAX
        }
    }
}

/// The token an identifier word denotes: a keyword, or an identifier.
pub open spec fn keyword_token(w: Seq<char>) -> TokenV {
    if w == "Get"@ {
        TokenV::Get
    } else if w == "class"@ {
        TokenV::Class
    } else if w == "new"@ {
        TokenV::New
    } else if w == "local"@ {
        TokenV::Local
    } else if w == "print"@ {
        TokenV::Print
    } else if w == "rest"@ {
        TokenV::Rest
    } else if w == "if"@ {
        TokenV::If
    } else if w == "then"@ {
        TokenV::Then
    } else if w == "while"@ {
        TokenV::While
    } else if w == "do"@ {
        TokenV::Do
    } else if w == "is"@ {
        TokenV::Is
    } else if w == "done"@ {
        TokenV::Done
    } else {
        TokenV::Identifier(w)
    }
}

/// The next token of `s` starting at position `i`, and the position after
/// it. Whitespace and unrecognised characters are skipped; the end of the
/// input yields the end marker.
pub open spec fn spec_next(s: Seq<char>, i: nat) -> (TokenV, nat)
    decreases s.len() - i,
{
    if i >= s.len() {
        (TokenV::EOF, i)
    } else {
        let c = s[i as int];
        if is_space_char(c) {
            spec_next(s, i + 1)
        } else if c == '?' {
            (TokenV::Quest, i + 1)
        } else if c == '%' {
            (TokenV::Percent, i + 1)
        } else if c == '@' {
            (TokenV::At, i + 1)
        } else if c == ',' {
            (TokenV::Comma, i + 1)
        } else if c == '.' {
            (TokenV::Dot, i + 1)
        } else if c == '[' {
            (TokenV::LeftBracket, i + 1)
        } else if c == ']' {
            (TokenV::RightBracket, i + 1)
        } else if c == '>' {
            (TokenV::Greater, i + 1)
        } else if c == '<' {
            (TokenV::Less, i + 1)
        } else if c == '+' {
            (TokenV::Plus, i + 1)
        } else if c == '-' {
            (TokenV::Minus, i + 1)
        } else if c == '*' {
            (TokenV::Star, i + 1)
        } else if c == '/' {
            (TokenV::Slash, i + 1)
        } else if c == '=' {
            if i + 1 < s.len() && s[i as int + 1] == '=' {
                (TokenV::Equal, i + 2)
            } else {
                (TokenV::Assign, i + 1)
            }
        } else if c == '"' {
            let e = string_end(s, i + 1);
            let after = if e < s.len() {
                e + 1
            } else {
                e
            };
            (TokenV::StringLit(s.subrange(i as int + 1, e as int)), after)
        } else if is_digit_char(c) {
            (TokenV::Number(num_value(s, i)), number_end(s, i))
        } else if is_ident_start_char(c) {
            let e = ident_end(s, i);
            (keyword_token(s.subrange(i as int, e as int)), e)
        } else {
            spec_next(s, i + 1)
        }
    }
}

/// The lexer's cursor over a source text.
pub struct Lexer {
    input: String,
    pos: usize,
    len: usize,
}

impl Lexer {
    /// The source text being tokenized.
    pub closed spec fn src(&self) -> Seq<char> {
        self.input@
    }

    /// The current position, in characters.
    pub closed spec fn cursor(&self) -> nat {
        self.pos as nat
    }

    /// Internal consistency: the cached length is the character count and
    /// the cursor never passes the end.
    pub closed spec fn wf(&self) -> bool {
        self.len == self.input@.len() && self.pos <= self.len
    }

    /// A lexer at the start of `input`.
    pub fn new(input: String) -> (l: Lexer)
        ensures
            l.wf(),
            l.src() == input@,
            l.cursor() == 0,
    {
        let len = input.as_str().unicode_len();
        Lexer { input, pos: 0, len }
    }

    fn peek_char(&self, i: usize) -> (c: char)
        requires
            self.wf(),
            i < self.src().len(),
        ensures
            c == self.src()[i as int],
    {
        self.input.as_str().get_char(i)
    }

    fn ident_char_at(&self, i: usize) -> (r: bool)
        requires
            self.wf(),
        ensures
            r == (i < self.src().len() && is_ident_char(self.src()[i as int])),
    {
        if i < self.len {
            let c = self.peek_char(i);
            (c >= 'A' && c <= 'Z') || (c >= 'a' && c <= 'z') || c == '_' || (c >= '0' && c <= '9')
        } else {
            false
        }
    }

    fn digit_char_at(&self, i: usize) -> (r: bool)
        requires
            self.wf(),
        ensures
            r == (i < self.src().len() && is_digit_char(self.src()[i as int])),
    {
        if i < self.len {
            let c = self.peek_char(i);
            c >= '0' && c <= '9'
        } else {
            false
        }
    }

    fn number_char_at(&self, i: usize) -> (r: bool)
        requires
            self.wf(),
        ensures
            r == (i < self.src().len() && (is_digit_char(self.src()[i as int]) || self.src()[i as int]
                == '.')),
    {
        if i < self.len {
            let c = self.peek_char(i);
            (c >= '0' && c <= '9') || c == '.'
        } else {
            false
        }
    }

    fn unquoted_char_at(&self, i: usize) -> (r: bool)
        requires
            self.wf(),
        ensures
            r == (i < self.src().len() && self.src()[i as int] != '"'),
    {
        if i < self.len {
            let c = self.peek_char(i);
            c != '"'
        } else {
            false
        }
    }

    /// Advances the cursor past any whitespace. Skipping whitespace never
    /// changes the next token.
    #[verifier::loop_isolation(false)]
    pub fn skip_whitespace(&mut self)
        requires
            old(self).wf(),
        ensures
            final(self).wf(),
            final(self).src() == old(self).src(),
            old(self).cursor() <= final(self).cursor(),
            final(self).cursor() == final(self).src().len() || !is_space_char(
                final(self).src()[final(self).cursor() as int],
            ),
            forall|j: int|
                old(self).cursor() <= j < final(self).cursor() ==> is_space_char(
                    #[trigger] final(self).src()[j],
                ),
            spec_next(final(self).src(), final(self).cursor()) == spec_next(
                old(self).src(),
                old(self).cursor(),
            ),
    {
        let ghost s = self.src();
        let ghost p0 = self.cursor();
        while self.pos < self.len
            invariant
                self.wf(),
                self.src() == s,
                p0 <= self.cursor(),
                forall|j: int| p0 <= j < self.cursor() ==> is_space_char(#[trigger] s[j]),
                spec_next(s, self.cursor()) == spec_next(s, p0),
            decreases self.len - self.pos,
        {
            let c = self.peek_char(self.pos);
            if c == ' ' || c == '\t' || c == '\n' || c == '\r' {
                proof {
                    assert(spec_next(s, self.cursor()) == spec_next(s, self.cursor() + 1));
                }
                self.pos = self.pos + 1;
            } else {
                return ;
            }
        }
    }

    fn lex_identifier(&mut self) -> (t: Token)
        requires
            old(self).wf(),
            old(self).cursor() < old(self).src().len(),
            is_ident_start_char(old(self).src()[old(self).cursor() as int]),
        ensures
            final(self).wf(),
            final(self).src() == old(self).src(),
            t.deep_view() == keyword_token(
                old(self).src().subrange(
                    old(self).cursor() as int,
                    ident_end(old(self).src(), old(self).cursor()) as int,
                ),
            ),
            final(self).cursor() == ident_end(old(self).src(), old(self).cursor()),
    {
        let ghost s = self.src();
        let ghost p0 = self.cursor();
        let mut i: usize = self.pos;
        while self.ident_char_at(i)
            invariant
                self.wf(),
                self.src() == s,
                p0 <= i <= self.len,
                ident_end(s, i as nat) == ident_end(s, p0),
            decreases self.len - i,
        {
            i = i + 1;
        }
        let word = self.input.as_str().substring_char(self.pos, i);
        let w = word.to_owned();
        self.pos = i;
        let t = if w == String::from_str("Get") {
            Token::Get
        } else if w == String::from_str("class") {
            Token::Class
        } else if w == String::from_str("new") {
            Token::New
        } else if w == String::from_str("local") {
            Token::Local
        } else if w == String::from_str("print") {
            Token::Print
        } else if w == String::from_str("rest") {
            Token::Rest
        } else if w == String::from_str("if") {
            Token::If
        } else if w == String::from_str("then") {
            Token::Then
        } else if w == String::from_str("while") {
            Token::While
        } else if w == String::from_str("do") {
            Token::Do
        } else if w == String::from_str("is") {
            Token::Is
        } else if w == String::from_str("done") {
            Token::Done
        } else {
            Token::Identifier(w)
        };
        t
    }

    fn lex_number(&mut self) -> (t: Token)
        requires
            old(self).wf(),
            old(self).cursor() < old(self).src().len(),
            is_digit_char(old(self).src()[old(self).cursor() as int]),
        ensures
            final(self).wf(),
            final(self).src() == old(self).src(),
            t.deep_view() == TokenV::Number(num_value(old(self).src(), old(self).cursor())),
            final(self).cursor() == number_end(old(self).src(), old(self).cursor()),
    {
        let ghost s = self.src();
        let ghost p0 = self.cursor();
        let mut val: u64 = 0;
        let mut i: usize = self.pos;
        while self.digit_char_at(i)
            invariant
                self.wf(),
                self.src() == s,
                p0 <= i <= self.len,
                digits_end(s, i as nat) == digits_end(s, p0),
                number_end(s, i as nat) == number_end(s, p0),
                run_dots(s, p0, i as nat) == 0,
                ({
                    let dv = digits_val(s, p0, i as nat);
                    if dv <= u64::MAX {
                        val == dv
                    } else {
                        val == u64::MAX
                    }
                }),
            decreases self.len - i,
        {
            let c = self.peek_char(i);
            let d: u64 = (c as u32 as u64) - 48;
            proof {
                assert(digits_val(s, p0, i as nat + 1) == digits_val(s, p0, i as nat) * 10 + d);
            }
            if val <= (u64::MAX - d) / 10 {
                val = val * 10 + d;
            } else {
                val = u64::MAX;
            }
            proof {
                assert(run_dots(s, p0, i as nat + 1) == run_dots(s, p0, i as nat));
            }
            i = i + 1;
        }
        let mut dots: u64 = 0;
        while self.number_char_at(i)
            invariant
                self.wf(),
                self.src() == s,
                p0 <= i <= self.len,
                number_end(s, i as nat) == number_end(s, p0),
                dots as nat == (if run_dots(s, p0, i as nat) < 2 {
                    run_dots(s, p0, i as nat)
                } else {
                    2
                }),
            decreases self.len - i,
        {
            let c = self.peek_char(i);
            proof {
                assert(run_dots(s, p0, i as nat + 1) == run_dots(s, p0, i as nat) + (
                if s[i as int] == '.' {
                    1nat
                } else {
                    0nat
                }));
            }
            if c == '.' && dots < 2 {
                dots = dots + 1;
            }
            i = i + 1;
        }
        self.pos = i;
        if dots >= 2 {
            Token::Number(0)
        } else {
            Token::Number(val)
        }
    }

    fn lex_string(&mut self) -> (t: Token)
        requires
            old(self).wf(),
            old(self).cursor() < old(self).src().len(),
            old(self).src()[old(self).cursor() as int] == '"',
        ensures
            final(self).wf(),
            final(self).src() == old(self).src(),
            ({
                let s = old(self).src();
                let p1 = old(self).cursor() + 1;
                let e = string_end(s, p1 as nat);
                &&& t.deep_view() == TokenV::StringLit(s.subrange(p1 as int, e as int))
                &&& final(self).cursor() == (if e < s.len() {
                    e + 1
                } else {
                    e
                })
            }),
    {
        let ghost s = self.src();
        let start = self.pos + 1;
        let mut i: usize = start;
        while self.unquoted_char_at(i)
            invariant
                self.wf(),
                self.src() == s,
                start <= i <= self.len,
                string_end(s, i as nat) == string_end(s, start as nat),
            decreases self.len - i,
        {
            i = i + 1;
        }
        let word = self.input.as_str().substring_char(start, i);
        let text = word.to_owned();
        if i < self.len {
            self.pos = i + 1;
        } else {
            self.pos = i;
        }
        Token::StringLit(text)
    }

    /// The next token of the input, advancing the cursor past it; the end
    /// marker once the input is exhausted.
    pub fn next_token(&mut self) -> (t: Token)
        requires
            old(self).wf(),
        ensures
            final(self).wf(),
            final(self).src() == old(self).src(),
            t.deep_view() == spec_next(old(self).src(), old(self).cursor()).0,
            final(self).cursor() == spec_next(old(self).src(), old(self).cursor()).1,
        decreases old(self).src().len() - old(self).cursor(),
    {
        if self.pos >= self.len {
            return Token::EOF;
        }
        let c = self.peek_char(self.pos);
        if c == ' ' || c == '\t' || c == '\n' || c == '\r' {
            self.pos = self.pos + 1;
            return self.next_token();
        }
        if c == '?' {
            self.pos = self.pos + 1;
            return Token::Quest;
        }
        if c == '%' {
            self.pos = self.pos + 1;
            return Token::Percent;
        }
        if c == '@' {
            self.pos = self.pos + 1;
            return Token::At;
        }
        if c == ',' {
            self.pos = self.pos + 1;
            return Token::Comma;
        }
        if c == '.' {
            self.pos = self.pos + 1;
            return Token::Dot;
        }
        if c == '[' {
            self.pos = self.pos + 1;
            return Token::LeftBracket;
        }
        if c == ']' {
            self.pos = self.pos + 1;
            return Token::RightBracket;
        }
        if c == '>' {
            self.pos = self.pos + 1;
            return Token::Greater;
        }
        if c == '<' {
            self.pos = self.pos + 1;
            return Token::Less;
        }
        if c == '+' {
            self.pos = self.pos + 1;
            return Token::Plus;
        }
        if c == '-' {
            self.pos = self.pos + 1;
            return Token::Minus;
        }
        if c == '*' {
            self.pos = self.pos + 1;
            return Token::Star;
        }
        if c == '/' {
            self.pos = self.pos + 1;
            return Token::Slash;
        }
        if c == '=' {
            if self.pos + 1 < self.len {
                let c2 = self.peek_char(self.pos + 1);
                if c2 == '=' {
                    self.pos = self.pos + 2;
                    return Token::Equal;
                }
            }
            self.pos = self.pos + 1;
            return Token::Assign;
        }
        if c == '"' {
            return self.lex_string();
        }
        if c >= '0' && c <= '9' {
            return self.lex_number();
        }
        if (c >= 'A' && c <= 'Z') || (c >= 'a' && c <= 'z') || c == '_' {
            return self.lex_identifier();
        }
        self.pos = self.pos + 1;
        self.next_token()
    }
}

} // verus!
