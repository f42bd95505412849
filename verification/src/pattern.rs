//! Patterns for the modem's delimited texts.
//!
//! A pattern is made of literal characters and runs of a character class.
//! It is searched for anywhere in a text; the first position at which it
//! matches wins, and each run takes as many characters as it can.

use crate::text::{count_char, is_digit, lemma_count_suffix, opt_texts, slice_of, texts};
use vstd::prelude::*;

verus! {

/// The sets of characters that a pattern can ask for.
#[derive(Clone, Copy, Debug, PartialEq, Eq, Structural)]
pub enum CharClass {
    /// `0` to `9`.
    Digit,
    /// Digits, ASCII letters and `_`.
    Word,
    /// `Word` and the space.
    WordSpace,
    /// `Word`, the space and `-`.
    WordSpaceDash,
    /// Digits and `.`.
    DigitDot,
    /// Digits and `:`.
    DigitColon,
    /// Digits and `/`.
    DigitSlash,
}

/// One element of a pattern.
#[derive(Clone, Copy, Debug, PartialEq, Eq, Structural)]
pub enum Token {
    /// Exactly this character.
    Lit(char),
    /// One or more characters of the class, as many as follow; captured.
    Run(CharClass),
    /// One or more characters of the class, as many as follow; not captured.
    Skip(CharClass),
    /// Exactly one character of the class; captured.
    One(CharClass),
    /// Everything up to the next line feed or the end of the text; captured.
    Rest,
}

/// Whether `c` is a digit, an ASCII letter or `_`.
pub open spec fn is_word(c: char) -> bool {
    is_digit(c) || ('a' <= c && c <= 'z') || ('A' <= c && c <= 'Z') || c == '_'
}

impl CharClass {
    /// Whether `c` belongs to the class.
    pub open spec fn has(self, c: char) -> bool {
        match self {
            CharClass::Digit => is_digit(c),
            CharClass::Word => is_word(c),
            CharClass::WordSpace => is_word(c) || c == ' ',
            CharClass::WordSpaceDash => is_word(c) || c == ' ' || c == '-',
            CharClass::DigitDot => is_digit(c) || c == '.',
            CharClass::DigitColon => is_digit(c) || c == ':',
            CharClass::DigitSlash => is_digit(c) || c == '/',
        }
    }

    /// Whether `c` belongs to the class.
    pub fn holds(self, c: char) -> (r: bool)
        ensures
            r == self.has(c),
    {
        let digit = '0' <= c && c <= '9';
        let word = digit || ('a' <= c && c <= 'z') || ('A' <= c && c <= 'Z') || c == '_';
        match self {
            CharClass::Digit => digit,
            CharClass::Word => word,
            CharClass::WordSpace => word || c == ' ',
            CharClass::WordSpaceDash => word || c == ' ' || c == '-',
            CharClass::DigitDot => digit || c == '.',
            CharClass::DigitColon => digit || c == ':',
            CharClass::DigitSlash => digit || c == '/',
        }
    }
}

/// The end of the longest run of `class` characters that starts at `i`.
pub open spec fn run_end(s: Seq<char>, i: int, class: CharClass) -> int
    decreases s.len() - i,
{
    if 0 <= i < s.len() && class.has(s[i]) {
        run_end(s, i + 1, class)
    } else {
        i
    }
}

/// The position of the first line feed at or after `i`, or the end of `s`.
pub open spec fn line_end(s: Seq<char>, i: int) -> int
    decreases s.len() - i,
{
    if 0 <= i < s.len() && s[i] != '\n' {
        line_end(s, i + 1)
    } else {
        i
    }
}

/// What the tokens from the `k`-th on capture when they are matched against
/// `s` from position `i`, added to the captures `caps` made so far; `None`
/// where a token does not match.
pub open spec fn match_from(
    pattern: Seq<Token>,
    k: int,
    s: Seq<char>,
    i: int,
    caps: Seq<Seq<char>>,
) -> Option<Seq<Seq<char>>>
    decreases pattern.len() - k,
{
    if k < 0 || k >= pattern.len() {
        Some(caps)
    } else {
        match pattern[k] {
            Token::Lit(c) => if 0 <= i < s.len() && s[i] == c {
                match_from(pattern, k + 1, s, i + 1, caps)
            } else {
                None
            },
            Token::Run(class) => {
                let e = run_end(s, i, class);
                if e > i {
                    match_from(pattern, k + 1, s, e, caps.push(s.subrange(i, e)))
                } else {
                    None
                }
            },
            Token::Skip(class) => {
                let e = run_end(s, i, class);
                if e > i {
                    match_from(pattern, k + 1, s, e, caps)
                } else {
                    None
                }
            },
            Token::One(class) => if 0 <= i < s.len() && class.has(s[i]) {
                match_from(pattern, k + 1, s, i + 1, caps.push(s.subrange(i, i + 1)))
            } else {
                None
            },
            Token::Rest => {
                let e = line_end(s, i);
                match_from(pattern, k + 1, s, e, caps.push(s.subrange(i, e)))
            },
        }
    }
}

/// The captures of `pattern` matched against `s` at position `start`.
pub open spec fn match_at(pattern: Seq<Token>, s: Seq<char>, start: int) -> Option<Seq<Seq<char>>> {
    match_from(pattern, 0, s, start, Seq::empty())
}

/// The captures of the first match of `pattern` in `s` that starts at `i` or
/// later.
pub open spec fn search_from(pattern: Seq<Token>, s: Seq<char>, i: int) -> Option<Seq<Seq<char>>>
    decreases s.len() - i,
{
    if i < 0 || i > s.len() {
        None
    } else {
        match match_at(pattern, s, i) {
            Some(caps) => Some(caps),
            None => if i < s.len() {
                search_from(pattern, s, i + 1)
            } else {
                None
            },
        }
    }
}

/// The captures of the leftmost match of `pattern` in `s`.
pub open spec fn first_match(pattern: Seq<Token>, s: Seq<char>) -> Option<Seq<Seq<char>>> {
    search_from(pattern, s, 0)
}

fn scan_run(s: &Vec<char>, i: usize, class: CharClass) -> (e: usize)
    requires
        i <= s.len(),
    ensures
        e == run_end(s@, i as int, class),
        i <= e <= s.len(),
{
    let mut e: usize = i;
    while e < s.len() && class.holds(s[e])
        invariant
            i <= e <= s.len(),
            run_end(s@, i as int, class) == run_end(s@, e as int, class),
        decreases s.len() - e,
    {
        e += 1;
    }
    e
}

fn scan_line(s: &Vec<char>, i: usize) -> (e: usize)
    requires
        i <= s.len(),
    ensures
        e == line_end(s@, i as int),
        i <= e <= s.len(),
{
    let mut e: usize = i;
    while e < s.len() && s[e] != '\n'
        invariant
            i <= e <= s.len(),
            line_end(s@, i as int) == line_end(s@, e as int),
        decreases s.len() - e,
    {
        e += 1;
    }
    e
}

/// Matches `pattern` against `s` at position `start`.
pub fn try_match(pattern: &Vec<Token>, s: &Vec<char>, start: usize) -> (r: Option<Vec<Vec<char>>>)
    requires
        start <= s.len(),
    ensures
        opt_texts(r) == match_at(pattern@, s@, start as int),
{
    let mut caps: Vec<Vec<char>> = Vec::new();
    let mut i: usize = start;
    let mut k: usize = 0;
    assert(texts(caps@) =~= Seq::empty());
    while k < pattern.len()
        invariant
            k <= pattern.len(),
            i <= s.len(),
            match_at(pattern@, s@, start as int) == match_from(
                pattern@,
                k as int,
                s@,
                i as int,
                texts(caps@),
            ),
        decreases pattern.len() - k,
    {
        let ghost before = texts(caps@);
        match pattern[k] {
            Token::Lit(c) => {
                if i < s.len() && s[i] == c {
                    i += 1;
                } else {
                    return None;
                }
            },
            Token::Run(class) => {
                let e = scan_run(s, i, class);
                if e == i {
                    return None;
                }
                caps.push(slice_of(s, i, e));
                assert(texts(caps@) =~= before.push(s@.subrange(i as int, e as int)));
                i = e;
            },
            Token::Skip(class) => {
                let e = scan_run(s, i, class);
                if e == i {
                    return None;
                }
                i = e;
            },
            Token::One(class) => {
                if i < s.len() && class.holds(s[i]) {
                    caps.push(slice_of(s, i, i + 1));
                    assert(texts(caps@) =~= before.push(s@.subrange(i as int, i + 1)));
                    i += 1;
                } else {
                    return None;
                }
            },
            Token::Rest => {
                let e = scan_line(s, i);
                caps.push(slice_of(s, i, e));
                assert(texts(caps@) =~= before.push(s@.subrange(i as int, e as int)));
                i = e;
            },
        }
        k += 1;
    }
    Some(caps)
}

/// Searches `s` for the leftmost match of `pattern`.
pub fn find_match(pattern: &Vec<Token>, s: &Vec<char>) -> (r: Option<Vec<Vec<char>>>)
    ensures
        opt_texts(r) == first_match(pattern@, s@),
{
    let mut i: usize = 0;
    loop
        invariant
            i <= s.len(),
            first_match(pattern@, s@) == search_from(pattern@, s@, i as int),
        decreases s.len() - i,
    {
        let found = try_match(pattern, s, i);
        if found.is_some() {
            return found;
        }
        if i == s.len() {
            return None;
        }
        i += 1;
    }
}

/// How many captures the tokens from the `k`-th on make.
pub open spec fn capture_count(pattern: Seq<Token>, k: int) -> nat
    decreases pattern.len() - k,
{
    if k < 0 || k >= pattern.len() {
        0
    } else {
        match pattern[k] {
            Token::Lit(_) => capture_count(pattern, k + 1),
            Token::Skip(_) => capture_count(pattern, k + 1),
            _ => 1 + capture_count(pattern, k + 1),
        }
    }
}

/// A match makes one capture for each capturing token.
pub proof fn lemma_capture_count(
    pattern: Seq<Token>,
    k: int,
    s: Seq<char>,
    i: int,
    caps: Seq<Seq<char>>,
)
    requires
        0 <= k,
    ensures
        match_from(pattern, k, s, i, caps) matches Some(c) ==> c.len() == caps.len()
            + capture_count(pattern, k),
    decreases pattern.len() - k,
{
    if k < pattern.len() {
        match pattern[k] {
            Token::Lit(c) => {
                lemma_capture_count(pattern, k + 1, s, i + 1, caps);
            },
            Token::Run(class) => {
                let e = run_end(s, i, class);
                lemma_capture_count(pattern, k + 1, s, e, caps.push(s.subrange(i, e)));
            },
            Token::Skip(class) => {
                lemma_capture_count(pattern, k + 1, s, run_end(s, i, class), caps);
            },
            Token::One(class) => {
                lemma_capture_count(pattern, k + 1, s, i + 1, caps.push(s.subrange(i, i + 1)));
            },
            Token::Rest => {
                let e = line_end(s, i);
                lemma_capture_count(pattern, k + 1, s, e, caps.push(s.subrange(i, e)));
            },
        }
    }
}

/// The leftmost match makes one capture for each capturing token.
pub proof fn lemma_first_match_count(pattern: Seq<Token>, s: Seq<char>, i: int)
    requires
        0 <= i,
    ensures
        search_from(pattern, s, i) matches Some(c) ==> c.len() == capture_count(pattern, 0),
    decreases s.len() - i,
{
    if i <= s.len() {
        lemma_capture_count(pattern, 0, s, i, Seq::empty());
        if match_at(pattern, s, i) is None && i < s.len() {
            lemma_first_match_count(pattern, s, i + 1);
        }
    }
}

/// Whether every character of `s` belongs to `class`.
pub open spec fn all_in(s: Seq<char>, class: CharClass) -> bool {
    forall|i: int| 0 <= i < s.len() ==> class.has(#[trigger] s[i])
}

/// Whether `part` can stand where `token` stands: a run is not empty and
/// made of its class, a single character belongs to its class, and the rest
/// of a line holds no line feed. A literal takes no part.
pub open spec fn fits(token: Token, part: Seq<char>) -> bool {
    match token {
        Token::Lit(_) => true,
        Token::Run(class) => part.len() > 0 && all_in(part, class),
        Token::Skip(class) => part.len() > 0 && all_in(part, class),
        Token::One(class) => part.len() == 1 && class.has(part[0]),
        Token::Rest => forall|i: int| 0 <= i < part.len() ==> #[trigger] part[i] != '\n',
    }
}

/// Whether a run can never run on into what follows it: after a run stands
/// a literal that is not of the run's class, or nothing; and the rest of a
/// line stands last.
pub open spec fn separated(pattern: Seq<Token>) -> bool {
    forall|k: int|
        0 <= k < pattern.len() ==> match #[trigger] pattern[k] {
            Token::Run(class) => k + 1 < pattern.len() ==> (pattern[k + 1] matches Token::Lit(c)
                && !class.has(c)),
            Token::Skip(class) => k + 1 < pattern.len() ==> (pattern[k + 1] matches Token::Lit(c)
                && !class.has(c)),
            Token::Rest => k + 1 == pattern.len(),
            _ => true,
        }
}

/// The text that the tokens from the `k`-th on write when the tokens that
/// are no literals are filled with the parts from the `j`-th on.
pub open spec fn written(pattern: Seq<Token>, k: int, parts: Seq<Seq<char>>, j: int) -> Seq<char>
    decreases pattern.len() - k,
{
    if k < 0 || k >= pattern.len() {
        Seq::empty()
    } else {
        match pattern[k] {
            Token::Lit(c) => seq![c] + written(pattern, k + 1, parts, j),
            _ => parts[j] + written(pattern, k + 1, parts, j + 1),
        }
    }
}

/// Whether the parts from the `j`-th on fit the tokens from the `k`-th on.
pub open spec fn all_fit(pattern: Seq<Token>, k: int, parts: Seq<Seq<char>>, j: int) -> bool
    decreases pattern.len() - k,
{
    if k < 0 || k >= pattern.len() {
        true
    } else {
        match pattern[k] {
            Token::Lit(_) => all_fit(pattern, k + 1, parts, j),
            token => 0 <= j < parts.len() && fits(token, parts[j]) && all_fit(
                pattern,
                k + 1,
                parts,
                j + 1,
            ),
        }
    }
}

/// The parts that are captured: those of the tokens that are neither
/// literals nor skipped.
pub open spec fn kept_parts(pattern: Seq<Token>, k: int, parts: Seq<Seq<char>>, j: int) -> Seq<
    Seq<char>,
>
    decreases pattern.len() - k,
{
    if k < 0 || k >= pattern.len() {
        Seq::empty()
    } else {
        match pattern[k] {
            Token::Lit(_) => kept_parts(pattern, k + 1, parts, j),
            Token::Skip(_) => kept_parts(pattern, k + 1, parts, j + 1),
            _ => seq![parts[j]] + kept_parts(pattern, k + 1, parts, j + 1),
        }
    }
}

/// Where the pattern has the literals of `text` from the `k`-th token on,
/// it writes `text` there.
pub proof fn lemma_written_literals(
    pattern: Seq<Token>,
    k: int,
    parts: Seq<Seq<char>>,
    j: int,
    text: Seq<char>,
)
    requires
        0 <= k,
        k + text.len() <= pattern.len(),
        forall|n: int| 0 <= n < text.len() ==> #[trigger] pattern[k + n] == Token::Lit(text[n]),
    ensures
        written(pattern, k, parts, j) == text + written(pattern, k + text.len(), parts, j),
    decreases text.len(),
{
    if text.len() == 0 {
        assert(text + written(pattern, k, parts, j) =~= written(pattern, k, parts, j));
    } else {
        let rest = text.drop_first();
        assert(pattern[k + 0] == Token::Lit(text[0]));
        assert forall|n: int| 0 <= n < rest.len() implies #[trigger] pattern[k + 1 + n]
            == Token::Lit(rest[n]) by {
            assert(pattern[k + (n + 1)] == Token::Lit(text[n + 1]));
        }
        lemma_written_literals(pattern, k + 1, parts, j, rest);
        assert(seq![text[0]] + (rest + written(pattern, k + 1 + rest.len(), parts, j)) =~= text
            + written(pattern, k + text.len(), parts, j));
    }
}

/// Where the `k`-th token is no literal, the pattern writes the `j`-th part
/// there.
pub proof fn lemma_written_part(pattern: Seq<Token>, k: int, parts: Seq<Seq<char>>, j: int)
    requires
        0 <= k < pattern.len(),
        !(pattern[k] is Lit),
    ensures
        written(pattern, k, parts, j) == parts[j] + written(pattern, k + 1, parts, j + 1),
{
}

/// A run of characters of a class ends where the first character follows
/// that is not of the class.
pub proof fn lemma_run_end_of_part(s: Seq<char>, i: int, part: Seq<char>, class: CharClass)
    requires
        0 <= i,
        i + part.len() <= s.len(),
        s.subrange(i, i + part.len()) == part,
        all_in(part, class),
        i + part.len() < s.len() ==> !class.has(s[i + part.len()]),
    ensures
        run_end(s, i, class) == i + part.len(),
    decreases part.len(),
{
    if part.len() > 0 {
        assert(s[i] == part[0]);
        let rest = part.drop_first();
        assert(s.subrange(i + 1, i + 1 + rest.len()) =~= rest);
        assert forall|k: int| 0 <= k < rest.len() implies class.has(#[trigger] rest[k]) by {
            assert(rest[k] == part[k + 1]);
        }
        lemma_run_end_of_part(s, i + 1, rest, class);
    }
}

/// A line without line feeds ends where the text ends.
pub proof fn lemma_line_end_of_part(s: Seq<char>, i: int)
    requires
        0 <= i <= s.len(),
        forall|k: int| i <= k < s.len() ==> #[trigger] s[k] != '\n',
    ensures
        line_end(s, i) == s.len(),
    decreases s.len() - i,
{
    if i < s.len() {
        lemma_line_end_of_part(s, i + 1);
    }
}

/// A part that is written between two texts is found again as a run, if
/// what follows does not begin with a character of the run's class.
pub proof fn lemma_run_between(
    before: Seq<char>,
    part: Seq<char>,
    after: Seq<char>,
    class: CharClass,
)
    requires
        all_in(part, class),
        after.len() > 0 ==> !class.has(after[0]),
    ensures
        run_end(before + part + after, before.len() as int, class) == before.len() + part.len(),
        (before + part + after).subrange(
            before.len() as int,
            (before.len() + part.len()) as int,
        ) == part,
{
    let s = before + part + after;
    let i = before.len() as int;
    assert(s.subrange(i, i + part.len()) =~= part);
    if after.len() > 0 {
        assert(s[i + part.len()] == after[0]);
    }
    lemma_run_end_of_part(s, i, part, class);
}

/// The step of `lemma_match_written` over a literal.
proof fn lemma_match_written_lit(
    pattern: Seq<Token>,
    k: int,
    parts: Seq<Seq<char>>,
    j: int,
    before: Seq<char>,
    caps: Seq<Seq<char>>,
    c: char,
)
    requires
        0 <= k < pattern.len(),
        pattern[k] == Token::Lit(c),
        match_from(
            pattern,
            k + 1,
            before.push(c) + written(pattern, k + 1, parts, j),
            (before.len() + 1) as int,
            caps,
        ) == Some(caps + kept_parts(pattern, k + 1, parts, j)),
    ensures
        match_from(
            pattern,
            k,
            before + written(pattern, k, parts, j),
            before.len() as int,
            caps,
        ) == Some(caps + kept_parts(pattern, k, parts, j)),
{
    let s = before + written(pattern, k, parts, j);
    assert(s[before.len() as int] == c);
    assert(before.push(c) + written(pattern, k + 1, parts, j) =~= s);
}

/// The step of `lemma_match_written` over a run, captured or not.
proof fn lemma_match_written_run(
    pattern: Seq<Token>,
    k: int,
    parts: Seq<Seq<char>>,
    j: int,
    before: Seq<char>,
    caps: Seq<Seq<char>>,
    class: CharClass,
    captured: bool,
)
    requires
        separated(pattern),
        0 <= k < pattern.len(),
        pattern[k] == if captured {
            Token::Run(class)
        } else {
            Token::Skip(class)
        },
        0 <= j < parts.len(),
        fits(pattern[k], parts[j]),
        match_from(
            pattern,
            k + 1,
            (before + parts[j]) + written(pattern, k + 1, parts, j + 1),
            (before.len() + parts[j].len()) as int,
            if captured {
                caps.push(parts[j])
            } else {
                caps
            },
        ) == Some(
            (if captured {
                caps.push(parts[j])
            } else {
                caps
            }) + kept_parts(pattern, k + 1, parts, j + 1),
        ),
    ensures
        match_from(
            pattern,
            k,
            before + written(pattern, k, parts, j),
            before.len() as int,
            caps,
        ) == Some(caps + kept_parts(pattern, k, parts, j)),
{
    let part = parts[j];
    let after = written(pattern, k + 1, parts, j + 1);
    let s = before + written(pattern, k, parts, j);
    assert(after.len() > 0 ==> !class.has(after[0])) by {
        if k + 1 < pattern.len() {
            assert(pattern[k + 1] is Lit);
        }
    }
    lemma_run_between(before, part, after, class);
    assert(before + part + after =~= s);
    assert((before + part) + after =~= s);
    if captured {
        assert(caps.push(part) + kept_parts(pattern, k + 1, parts, j + 1) =~= caps + kept_parts(
            pattern,
            k,
            parts,
            j,
        ));
    }
}

/// The step of `lemma_match_written` over a single character.
proof fn lemma_match_written_one(
    pattern: Seq<Token>,
    k: int,
    parts: Seq<Seq<char>>,
    j: int,
    before: Seq<char>,
    caps: Seq<Seq<char>>,
    class: CharClass,
)
    requires
        0 <= k < pattern.len(),
        pattern[k] == Token::One(class),
        0 <= j < parts.len(),
        fits(pattern[k], parts[j]),
        match_from(
            pattern,
            k + 1,
            (before + parts[j]) + written(pattern, k + 1, parts, j + 1),
            (before.len() + 1) as int,
            caps.push(parts[j]),
        ) == Some(caps.push(parts[j]) + kept_parts(pattern, k + 1, parts, j + 1)),
    ensures
        match_from(
            pattern,
            k,
            before + written(pattern, k, parts, j),
            before.len() as int,
            caps,
        ) == Some(caps + kept_parts(pattern, k, parts, j)),
{
    let part = parts[j];
    let i = before.len() as int;
    let s = before + written(pattern, k, parts, j);
    assert(s[i] == part[0]);
    assert(s.subrange(i, i + 1) =~= part);
    assert((before + part) + written(pattern, k + 1, parts, j + 1) =~= s);
    assert(caps.push(part) + kept_parts(pattern, k + 1, parts, j + 1) =~= caps + kept_parts(
        pattern,
        k,
        parts,
        j,
    ));
}

/// The step of `lemma_match_written` over the rest of a line.
proof fn lemma_match_written_rest(
    pattern: Seq<Token>,
    k: int,
    parts: Seq<Seq<char>>,
    j: int,
    before: Seq<char>,
    caps: Seq<Seq<char>>,
)
    requires
        k + 1 == pattern.len(),
        0 <= k,
        pattern[k] == Token::Rest,
        0 <= j < parts.len(),
        fits(pattern[k], parts[j]),
    ensures
        match_from(
            pattern,
            k,
            before + written(pattern, k, parts, j),
            before.len() as int,
            caps,
        ) == Some(caps + kept_parts(pattern, k, parts, j)),
{
    let part = parts[j];
    let i = before.len() as int;
    let s = before + written(pattern, k, parts, j);
    assert(written(pattern, k + 1, parts, j + 1) =~= Seq::empty());
    assert(s =~= before + part);
    assert forall|n: int| i <= n < s.len() implies #[trigger] s[n] != '\n' by {
        assert(s[n] == part[n - i]);
    }
    lemma_line_end_of_part(s, i);
    assert(s.subrange(i, s.len() as int) =~= part);
    assert(kept_parts(pattern, k + 1, parts, j + 1) =~= Seq::empty());
    assert(caps.push(part) =~= caps + kept_parts(pattern, k, parts, j));
    assert(match_from(pattern, k + 1, s, s.len() as int, caps.push(part)) == Some(caps.push(part)));
}

/// A text that a pattern writes is matched by the pattern, and what is
/// captured are the parts that it was written from.
pub proof fn lemma_match_written(
    pattern: Seq<Token>,
    k: int,
    parts: Seq<Seq<char>>,
    j: int,
    before: Seq<char>,
    caps: Seq<Seq<char>>,
)
    requires
        separated(pattern),
        0 <= k <= pattern.len(),
        all_fit(pattern, k, parts, j),
    ensures
        match_from(
            pattern,
            k,
            before + written(pattern, k, parts, j),
            before.len() as int,
            caps,
        ) == Some(caps + kept_parts(pattern, k, parts, j)),
    decreases pattern.len() - k,
{
    if k == pattern.len() {
        assert(caps + kept_parts(pattern, k, parts, j) =~= caps);
    } else {
        match pattern[k] {
            Token::Lit(c) => {
                lemma_match_written(pattern, k + 1, parts, j, before.push(c), caps);
                lemma_match_written_lit(pattern, k, parts, j, before, caps, c);
            },
            Token::Rest => {
                lemma_match_written_rest(pattern, k, parts, j, before, caps);
            },
            Token::One(class) => {
                lemma_match_written(
                    pattern,
                    k + 1,
                    parts,
                    j + 1,
                    before + parts[j],
                    caps.push(parts[j]),
                );
                lemma_match_written_one(pattern, k, parts, j, before, caps, class);
            },
            Token::Run(class) => {
                lemma_match_written(
                    pattern,
                    k + 1,
                    parts,
                    j + 1,
                    before + parts[j],
                    caps.push(parts[j]),
                );
                lemma_match_written_run(pattern, k, parts, j, before, caps, class, true);
            },
            Token::Skip(class) => {
                lemma_match_written(pattern, k + 1, parts, j + 1, before + parts[j], caps);
                lemma_match_written_run(pattern, k, parts, j, before, caps, class, false);
            },
        }
    }
}

/// The leftmost match of a pattern in a text that it wrote starts at the
/// beginning and captures the parts that the text was written from.
pub proof fn lemma_first_match_written(pattern: Seq<Token>, parts: Seq<Seq<char>>)
    requires
        separated(pattern),
        all_fit(pattern, 0, parts, 0),
    ensures
        first_match(pattern, written(pattern, 0, parts, 0)) == Some(
            kept_parts(pattern, 0, parts, 0),
        ),
{
    lemma_match_written(pattern, 0, parts, 0, Seq::empty(), Seq::empty());
    assert(Seq::<char>::empty() + written(pattern, 0, parts, 0) =~= written(pattern, 0, parts, 0));
    assert(Seq::<Seq<char>>::empty() + kept_parts(pattern, 0, parts, 0) =~= kept_parts(
        pattern,
        0,
        parts,
        0,
    ));
}

/// How many of the tokens from the `k`-th on are the literal `c`.
pub open spec fn literal_count(pattern: Seq<Token>, k: int, c: char) -> nat
    decreases pattern.len() - k,
{
    if k < 0 || k >= pattern.len() {
        0
    } else if pattern[k] == Token::Lit(c) {
        1 + literal_count(pattern, k + 1, c)
    } else {
        literal_count(pattern, k + 1, c)
    }
}

/// The end of a run lies between where it starts and the end of the text.
pub proof fn lemma_run_end_bounds(s: Seq<char>, i: int, class: CharClass)
    requires
        0 <= i <= s.len(),
    ensures
        i <= run_end(s, i, class) <= s.len(),
    decreases s.len() - i,
{
    if i < s.len() && class.has(s[i]) {
        lemma_run_end_bounds(s, i + 1, class);
    }
}

/// The end of a line lies between where it starts and the end of the text.
pub proof fn lemma_line_end_bounds(s: Seq<char>, i: int)
    requires
        0 <= i <= s.len(),
    ensures
        i <= line_end(s, i) <= s.len(),
    decreases s.len() - i,
{
    if i < s.len() && s[i] != '\n' {
        lemma_line_end_bounds(s, i + 1);
    }
}

/// A match finds each of the pattern's literals in the text, one after the
/// other.
pub proof fn lemma_match_needs_literals(
    pattern: Seq<Token>,
    k: int,
    s: Seq<char>,
    i: int,
    caps: Seq<Seq<char>>,
    c: char,
)
    requires
        0 <= k,
        0 <= i <= s.len(),
        match_from(pattern, k, s, i, caps) is Some,
    ensures
        count_char(s.skip(i), c) >= literal_count(pattern, k, c),
    decreases pattern.len() - k,
{
    if k < pattern.len() {
        match pattern[k] {
            Token::Lit(l) => {
                lemma_match_needs_literals(pattern, k + 1, s, i + 1, caps, c);
                lemma_count_suffix(s, i, i + 1, c);
            },
            Token::Run(class) => {
                let e = run_end(s, i, class);
                lemma_run_end_bounds(s, i, class);
                lemma_match_needs_literals(pattern, k + 1, s, e, caps.push(s.subrange(i, e)), c);
                lemma_count_suffix(s, i, e, c);
            },
            Token::Skip(class) => {
                let e = run_end(s, i, class);
                lemma_run_end_bounds(s, i, class);
                lemma_match_needs_literals(pattern, k + 1, s, e, caps, c);
                lemma_count_suffix(s, i, e, c);
            },
            Token::One(class) => {
                lemma_match_needs_literals(
                    pattern,
                    k + 1,
                    s,
                    i + 1,
                    caps.push(s.subrange(i, i + 1)),
                    c,
                );
                lemma_count_suffix(s, i, i + 1, c);
            },
            Token::Rest => {
                let e = line_end(s, i);
                lemma_line_end_bounds(s, i);
                lemma_match_needs_literals(pattern, k + 1, s, e, caps.push(s.subrange(i, e)), c);
                lemma_count_suffix(s, i, e, c);
            },
        }
    }
}

/// A pattern matches nowhere in a text that holds fewer of a character
/// than the pattern has literals of it.
pub proof fn lemma_too_few_literals(pattern: Seq<Token>, s: Seq<char>, c: char)
    requires
        count_char(s, c) < literal_count(pattern, 0, c),
    ensures
        first_match(pattern, s) is None,
{
    lemma_no_match_from(pattern, s, c, 0);
}

proof fn lemma_no_match_from(pattern: Seq<Token>, s: Seq<char>, c: char, i: int)
    requires
        0 <= i,
        count_char(s, c) < literal_count(pattern, 0, c),
    ensures
        search_from(pattern, s, i) is None,
    decreases s.len() - i,
{
    if i <= s.len() {
        assert(s.skip(0) =~= s);
        lemma_count_suffix(s, 0, i, c);
        if match_at(pattern, s, i) is Some {
            lemma_match_needs_literals(pattern, 0, s, i, Seq::empty(), c);
        }
        if i < s.len() {
            lemma_no_match_from(pattern, s, c, i + 1);
        }
    }
}

} // verus!
