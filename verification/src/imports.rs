//! Classification of source lines for whole-file inclusion.
//!
//! Inclusion is resolved before lexing: every line whose first word is the
//! inclusion keyword (`GET`, in any letter case) names a library file whose
//! contents must be placed ahead of the main body, so that definitions
//! precede their uses in the single pass. This module decides, for one line,
//! whether it is such a request and which library it names; reading the
//! named file and assembling the preprocessed source is the caller's side of
//! the work.

use vstd::prelude::*;
use vstd::string::{StringExecFns, StrSliceExecFns};
use crate::lexer::is_space_char;

verus! {

/// The first position at or after `i` that is not whitespace.
pub open spec fn space_end(s: Seq<char>, i: nat) -> nat
    decreases s.len() - i,
{
    if i < s.len() && is_space_char(s[i as int]) {
        space_end(s, i + 1)
    } else {
        i
    }
}

/// The first position at or after `i` that is whitespace (or the end).
pub open spec fn word_end(s: Seq<char>, i: nat) -> nat
    decreases s.len() - i,
{
    if i < s.len() && !is_space_char(s[i as int]) {
        word_end(s, i + 1)
    } else {
        i
    }
}

/// The characters at positions `[i, j)` with every quote removed.
pub open spec fn strip_quotes(s: Seq<char>, i: nat, j: nat) -> Seq<char>
    decreases j - i,
{
    if i >= j {
        Seq::<char>::empty()
    } else if s[i as int] == '"' {
        strip_quotes(s, i + 1, j)
    } else {
        seq![s[i as int]] + strip_quotes(s, i + 1, j)
    }
}

/// Whether the word starting at `a` is the inclusion keyword, in any case.
pub open spec fn is_get_word(s: Seq<char>, a: nat) -> bool {
    &&& a + 3 <= s.len()
    &&& (s[a as int] == 'G' || s[a as int] == 'g')
    &&& (s[a as int + 1] == 'E' || s[a as int + 1] == 'e')
    &&& (s[a as int + 2] == 'T' || s[a as int + 2] == 't')
}

/// The library name an inclusion line requests: the line's second
/// whitespace-separated word, every quote removed — or nothing, when the
/// line does not start with the inclusion keyword or names no library.
pub open spec fn spec_import_target(s: Seq<char>) -> Option<Seq<char>> {
    let a = space_end(s, 0);
    if is_get_word(s, a) {
        let w1e = word_end(s, a);
        let w2s = space_end(s, w1e);
        let w2e = word_end(s, w2s);
        if w2s < w2e {
            Some(strip_quotes(s, w2s, w2e))
        } else {
            None
        }
    } else {
        None
    }
}

fn space_at(line: &str, n: usize, i: usize) -> (r: bool)
    requires
        n == line@.len(),
    ensures
        r == (i < line@.len() && is_space_char(line@[i as int])),
{
    if i < n {
        let c = line.get_char(i);
        c == ' ' || c == '\t' || c == '\n' || c == '\r'
    } else {
        false
    }
}

fn quote_at(line: &str, n: usize, i: usize) -> (r: bool)
    requires
        n == line@.len(),
    ensures
        r == (i < line@.len() && line@[i as int] == '"'),
{
    if i < n {
        let c = line.get_char(i);
        c == '"'
    } else {
        false
    }
}

/// Decides whether `line` requests an inclusion and, if so, returns the
/// library name it names.
#[verifier::loop_isolation(false)]
pub fn import_target(line: &str) -> (r: Option<String>)
    ensures
        ({
            match r {
                Some(name) => spec_import_target(line@) == Some(name@),
                None => spec_import_target(line@) is None,
            }
        }),
{
    let ghost s = line@;
    let n = line.unicode_len();
    let mut a: usize = 0;
    while space_at(line, n, a)
        invariant
            n == s.len(),
            a <= n,
            space_end(s, a as nat) == space_end(s, 0),
        decreases n - a,
    {
        a = a + 1;
    }
    if n - a < 3 {
        return None;
    }
    let c0 = line.get_char(a);
    let c1 = line.get_char(a + 1);
    let c2 = line.get_char(a + 2);
    if !((c0 == 'G' || c0 == 'g') && (c1 == 'E' || c1 == 'e') && (c2 == 'T' || c2 == 't')) {
        return None;
    }
    let mut w1e: usize = a;
    while w1e < n && !space_at(line, n, w1e)
        invariant
            n == s.len(),
            a <= w1e <= n,
            word_end(s, w1e as nat) == word_end(s, a as nat),
        decreases n - w1e,
    {
        w1e = w1e + 1;
    }
    let mut w2s: usize = w1e;
    while space_at(line, n, w2s)
        invariant
            n == s.len(),
            w1e <= w2s <= n,
            space_end(s, w2s as nat) == space_end(s, w1e as nat),
        decreases n - w2s,
    {
        w2s = w2s + 1;
    }
    let mut w2e: usize = w2s;
    while w2e < n && !space_at(line, n, w2e)
        invariant
            n == s.len(),
            w2s <= w2e <= n,
            word_end(s, w2e as nat) == word_end(s, w2s as nat),
        decreases n - w2e,
    {
        w2e = w2e + 1;
    }
    if !(w2s < w2e) {
        return None;
    }
    let mut name = String::new();
    let mut i: usize = w2s;
    while i < w2e
        invariant
            n == s.len(),
            w2s <= i <= w2e <= n,
            strip_quotes(s, w2s as nat, w2e as nat) =~= name@ + strip_quotes(
                s,
                i as nat,
                w2e as nat,
            ),
        decreases w2e - i,
    {
        if quote_at(line, n, i) {
            i = i + 1;
        } else {
            let mut k: usize = i + 1;
            while k < w2e && !quote_at(line, n, k)
                invariant
                    n == s.len(),
                    i < k <= w2e,
                    strip_quotes(s, i as nat, w2e as nat) =~= s.subrange(i as int, k as int)
                        + strip_quotes(s, k as nat, w2e as nat),
                decreases w2e - k,
            {
                k = k + 1;
            }
            let seg = line.substring_char(i, k);
            name.append(seg);
            i = k;
        }
    }
    proof {
        assert(strip_quotes(s, i as nat, w2e as nat) =~= Seq::<char>::empty());
        assert(name@ =~= strip_quotes(s, w2s as nat, w2e as nat));
    }
    Some(name)
}

} // verus!
