//! Texts as sequences of characters: cutting and joining them, counting
//! in them, and reading and writing numbers in decimal.

use vstd::prelude::*;

verus! {

/// Whether `c` is one of `0` to `9`.
pub open spec fn is_digit(c: char) -> bool {
    '0' <= c && c <= '9'
}

/// The texts held by a vector of character vectors.
pub open spec fn texts(v: Seq<Vec<char>>) -> Seq<Seq<char>> {
    Seq::new(v.len(), |i: int| v[i]@)
}

/// The texts held by an optional vector of character vectors.
pub open spec fn opt_texts(v: Option<Vec<Vec<char>>>) -> Option<Seq<Seq<char>>> {
    match v {
        Some(c) => Some(texts(c@)),
        None => None,
    }
}

/// The characters of `s`, in order.
pub fn chars_of(s: &str) -> (chars: Vec<char>)
    ensures
        chars@ == s@,
{
    let mut chars: Vec<char> = Vec::new();
    let it = s.chars();
    for c in iter: it
        invariant
            chars@ == iter.seq().take(iter.index() as int),
            iter.seq() == s@,
    {
        chars.push(c);
    }
    chars
}

/// Collects characters into a `String` through std's
/// `impl FromIterator<char> for String`, which keeps them in order.
#[verifier::external_body]
pub(crate) fn string_of(chars: &Vec<char>) -> (s: String)
    ensures
        s@ == chars@,
{
    chars.iter().collect()
}

/// A copy of the characters of `s` from `from` up to `to`.
pub fn slice_of(s: &Vec<char>, from: usize, to: usize) -> (piece: Vec<char>)
    requires
        from <= to <= s.len(),
    ensures
        piece@ == s@.subrange(from as int, to as int),
{
    let mut piece: Vec<char> = Vec::new();
    let mut i: usize = from;
    while i < to
        invariant
            from <= i <= to <= s.len(),
            piece@ == s@.subrange(from as int, i as int),
        decreases to - i,
    {
        piece.push(s[i]);
        i += 1;
    }
    piece
}

/// The texts one after the other.
pub open spec fn joined(texts: Seq<Seq<char>>) -> Seq<char>
    decreases texts.len(),
{
    if texts.len() == 0 {
        Seq::empty()
    } else {
        joined(texts.drop_last()) + texts.last()
    }
}

/// Where each of the `tails` is a text followed by the next tail, and the
/// last tail is empty, the first tail is the texts one after the other.
pub proof fn lemma_joined(texts: Seq<Seq<char>>, tails: Seq<Seq<char>>)
    requires
        tails.len() == texts.len() + 1,
        tails.last().len() == 0,
        forall|n: int| 0 <= n < texts.len() ==> #[trigger] tails[n] == texts[n] + tails[n + 1],
    ensures
        tails[0] == joined(texts),
{
    lemma_joined_upto(texts, tails, texts.len() as int);
    assert(texts.take(texts.len() as int) =~= texts);
    assert(joined(texts) + tails.last() =~= joined(texts));
}

proof fn lemma_joined_upto(texts: Seq<Seq<char>>, tails: Seq<Seq<char>>, k: int)
    requires
        tails.len() == texts.len() + 1,
        0 <= k <= texts.len(),
        forall|n: int| 0 <= n < texts.len() ==> #[trigger] tails[n] == texts[n] + tails[n + 1],
    ensures
        tails[0] == joined(texts.take(k)) + tails[k],
    decreases k,
{
    if k == 0 {
        assert(texts.take(0) =~= Seq::empty());
        assert(joined(texts.take(0)) + tails[0] =~= tails[0]);
    } else {
        lemma_joined_upto(texts, tails, k - 1);
        assert(texts.take(k).drop_last() =~= texts.take(k - 1));
        assert(texts.take(k).last() == texts[k - 1]);
        assert(tails[k - 1] == texts[k - 1] + tails[k]);
        assert(joined(texts.take(k - 1)) + (texts[k - 1] + tails[k]) =~= (joined(texts.take(k - 1))
            + texts[k - 1]) + tails[k]);
    }
}

/// How many times `c` occurs in `s`.
pub open spec fn count_char(s: Seq<char>, c: char) -> nat
    decreases s.len(),
{
    if s.len() == 0 {
        0
    } else {
        count_char(s.drop_last(), c) + if s.last() == c {
            1nat
        } else {
            0nat
        }
    }
}

/// What two texts hold of a character, they hold together when joined.
pub proof fn lemma_count_concat(a: Seq<char>, b: Seq<char>, c: char)
    ensures
        count_char(a + b, c) == count_char(a, c) + count_char(b, c),
    decreases b.len(),
{
    if b.len() == 0 {
        assert(a + b =~= a);
    } else {
        lemma_count_concat(a, b.drop_last(), c);
        assert((a + b).drop_last() =~= a + b.drop_last());
        assert((a + b).last() == b.last());
    }
}

/// What is left of a text from a later position on holds no more of a
/// character than what is left from an earlier one.
pub proof fn lemma_count_suffix(s: Seq<char>, i: int, e: int, c: char)
    requires
        0 <= i <= e <= s.len(),
    ensures
        count_char(s.skip(i), c) >= count_char(s.skip(e), c),
        i < e && s[i] == c ==> count_char(s.skip(i), c) >= 1 + count_char(s.skip(e), c),
{
    lemma_count_concat(s.subrange(i, e), s.skip(e), c);
    assert(s.subrange(i, e) + s.skip(e) =~= s.skip(i));
    if i < e && s[i] == c {
        let head = s.subrange(i, e);
        lemma_count_concat(seq![s[i]], head.drop_first(), c);
        assert(seq![s[i]] + head.drop_first() =~= head);
        assert(count_char(seq![s[i]], c) == 1) by {
            assert(seq![s[i]].drop_last() =~= Seq::<char>::empty());
            reveal_with_fuel(count_char, 2);
        }
    }
}

/// The pieces of `s` between the occurrences of `sep`, found from left to
/// right without overlap. `p` is where the current piece starts and `q` the
/// position that is looked at next.
pub open spec fn split_from(s: Seq<char>, sep: Seq<char>, p: int, q: int) -> Seq<Seq<char>>
    decreases s.len() - q,
{
    if sep.len() == 0 || p < 0 || q < p || q + sep.len() > s.len() {
        seq![s.subrange(p, s.len() as int)]
    } else if s.subrange(q, q + sep.len()) == sep {
        seq![s.subrange(p, q)] + split_from(s, sep, q + sep.len(), q + sep.len())
    } else {
        split_from(s, sep, p, q + 1)
    }
}

/// The pieces of `s` between the occurrences of `sep`: one piece more than
/// there are occurrences, so a text without `sep` is its own single piece.
pub open spec fn split(s: Seq<char>, sep: Seq<char>) -> Seq<Seq<char>> {
    split_from(s, sep, 0, 0)
}

/// The pieces with `sep` between each two of them.
pub open spec fn joined_with(pieces: Seq<Seq<char>>, sep: Seq<char>) -> Seq<char>
    decreases pieces.len(),
{
    if pieces.len() == 0 {
        Seq::empty()
    } else if pieces.len() == 1 {
        pieces[0]
    } else {
        pieces[0] + sep + joined_with(pieces.drop_first(), sep)
    }
}

/// Whether no name stands twice in a list of names with their values, so
/// that the list holds what a mapping from names to values holds.
pub open spec fn distinct_names(named: Seq<(Seq<char>, Seq<char>)>) -> bool {
    forall|i: int, j: int| 0 <= i < j < named.len() ==> (#[trigger] named[i]).0 != (#[trigger] named[j]).0
}

/// Whether `c` occurs nowhere in `s`.
pub open spec fn free_of(s: Seq<char>, c: char) -> bool {
    forall|i: int| 0 <= i < s.len() ==> #[trigger] s[i] != c
}

/// Whether `part` occurs nowhere in `s`.
pub open spec fn without(s: Seq<char>, part: Seq<char>) -> bool {
    forall|q: int|
        0 <= q && q + part.len() <= s.len() ==> #[trigger] s.subrange(q, q + part.len()) != part
}

/// Whether a cut after `piece` is the first one: in the piece with the
/// separator behind it, the separator occurs at no place inside the piece.
pub open spec fn cut_only_after(piece: Seq<char>, sep: Seq<char>) -> bool {
    forall|q: int|
        0 <= q < piece.len() ==> #[trigger] (piece + sep).subrange(q, q + sep.len()) != sep
}

/// A piece that holds nothing of the separator's first character is cut
/// only at its end.
pub proof fn lemma_free_of_cut(piece: Seq<char>, sep: Seq<char>)
    requires
        sep.len() > 0,
        free_of(piece, sep[0]),
    ensures
        cut_only_after(piece, sep),
{
    assert forall|q: int| 0 <= q < piece.len() implies #[trigger] (piece + sep).subrange(
        q,
        q + sep.len(),
    ) != sep by {
        assert((piece + sep).subrange(q, q + sep.len())[0] == piece[q]);
    }
}

/// Scanning a piece that is cut only at its end finds no separator in it.
proof fn lemma_scan_piece(
    s: Seq<char>,
    sep: Seq<char>,
    p: int,
    q: int,
    piece: Seq<char>,
    last: bool,
)
    requires
        sep.len() > 0,
        0 <= p <= q <= p + piece.len(),
        p + piece.len() <= s.len(),
        s.subrange(p, p + piece.len()) == piece,
        cut_only_after(piece, sep),
        last ==> p + piece.len() == s.len(),
        !last ==> p + piece.len() + sep.len() <= s.len() && s.subrange(
            p + piece.len(),
            p + piece.len() + sep.len(),
        ) == sep,
    ensures
        split_from(s, sep, p, q) == if last {
            seq![piece]
        } else {
            seq![piece] + split_from(
                s,
                sep,
                p + piece.len() + sep.len(),
                p + piece.len() + sep.len(),
            )
        },
    decreases p + piece.len() - q,
{
    let end = p + piece.len();
    if q + sep.len() > s.len() {
        assert(last);
        assert(s.subrange(p, s.len() as int) =~= piece);
    } else if q == end {
        assert(!last);
        assert(s.subrange(p, q) =~= piece);
    } else {
        let here = s.subrange(q, q + sep.len());
        let there = (piece + sep).subrange(q - p, q - p + sep.len());
        assert(here =~= there) by {
            assert forall|n: int| 0 <= n < sep.len() implies here[n] == there[n] by {
                if q + n < end {
                    assert(piece[q + n - p] == s.subrange(p, end)[q + n - p]);
                } else {
                    assert(!last);
                    assert(sep[q + n - end] == s.subrange(end, end + sep.len())[q + n - end]);
                }
            }
        }
        assert(there != sep);
        lemma_scan_piece(s, sep, p, q + 1, piece, last);
    }
}

/// A text that was joined from pieces is cut into those pieces again, if
/// every piece is cut only at its end.
pub proof fn lemma_split_joined(before: Seq<char>, pieces: Seq<Seq<char>>, sep: Seq<char>)
    requires
        sep.len() > 0,
        pieces.len() > 0,
        forall|i: int| 0 <= i < pieces.len() ==> cut_only_after(#[trigger] pieces[i], sep),
    ensures
        split_from(
            before + joined_with(pieces, sep),
            sep,
            before.len() as int,
            before.len() as int,
        ) == pieces,
    decreases pieces.len(),
{
    let s = before + joined_with(pieces, sep);
    let p = before.len() as int;
    let piece = pieces[0];
    assert(cut_only_after(piece, sep));
    if pieces.len() == 1 {
        assert(s.subrange(p, p + piece.len()) =~= piece);
        lemma_scan_piece(s, sep, p, p, piece, true);
        assert(seq![piece] =~= pieces);
    } else {
        let rest = pieces.drop_first();
        let tail = joined_with(rest, sep);
        assert(s =~= before + piece + sep + tail);
        assert(s.subrange(p, p + piece.len()) =~= piece);
        assert(s.subrange(p + piece.len(), p + piece.len() + sep.len()) =~= sep);
        lemma_scan_piece(s, sep, p, p, piece, false);
        assert forall|i: int| 0 <= i < rest.len() implies cut_only_after(
            #[trigger] rest[i],
            sep,
        ) by {
            assert(rest[i] == pieces[i + 1]);
        }
        lemma_split_joined(before + piece + sep, rest, sep);
        assert((before + piece + sep) + tail =~= s);
        assert(seq![piece] + rest =~= pieces);
    }
}

/// The pieces of a joined text are the pieces that it was joined from, if
/// every piece is cut only at its end.
pub proof fn lemma_split_round_trip(pieces: Seq<Seq<char>>, sep: Seq<char>)
    requires
        sep.len() > 0,
        pieces.len() > 0,
        forall|i: int| 0 <= i < pieces.len() ==> cut_only_after(#[trigger] pieces[i], sep),
    ensures
        split(joined_with(pieces, sep), sep) == pieces,
{
    lemma_split_joined(Seq::empty(), pieces, sep);
    assert(Seq::<char>::empty() + joined_with(pieces, sep) =~= joined_with(pieces, sep));
}

fn occurs_at(s: &Vec<char>, sep: &Vec<char>, q: usize) -> (r: bool)
    requires
        q + sep.len() <= s.len(),
    ensures
        r == (s@.subrange(q as int, q + sep.len()) == sep@),
{
    let mut j: usize = 0;
    while j < sep.len()
        invariant
            j <= sep.len(),
            q + sep.len() <= s.len(),
            s@.subrange(q as int, q + j) == sep@.take(j as int),
        decreases sep.len() - j,
    {
        if s[q + j] != sep[j] {
            assert(s@.subrange(q as int, q + sep.len())[j as int] != sep@[j as int]);
            return false;
        }
        assert(s@.subrange(q as int, q + j + 1) =~= s@.subrange(q as int, q + j).push(s@[q + j]));
        assert(sep@.take(j + 1) =~= sep@.take(j as int).push(sep@[j as int]));
        j += 1;
    }
    assert(sep@.take(sep.len() as int) =~= sep@);
    true
}

/// Cuts `s` at every occurrence of `sep`. An empty `sep` occurs nowhere.
pub fn split_chars(s: &Vec<char>, sep: &Vec<char>) -> (pieces: Vec<Vec<char>>)
    ensures
        texts(pieces@) == split(s@, sep@),
        pieces.len() >= 1,
{
    let mut pieces: Vec<Vec<char>> = Vec::new();
    let mut p: usize = 0;
    let mut q: usize = 0;
    assert(texts(pieces@) =~= Seq::empty());
    while 0 < sep.len() && sep.len() <= s.len() && q <= s.len() - sep.len()
        invariant
            p <= q <= s.len(),
            split(s@, sep@) == texts(pieces@) + split_from(s@, sep@, p as int, q as int),
        decreases s.len() - q,
    {
        if occurs_at(s, sep, q) {
            let ghost before = texts(pieces@);
            pieces.push(slice_of(s, p, q));
            assert(texts(pieces@) =~= before.push(s@.subrange(p as int, q as int)));
            q = q + sep.len();
            p = q;
            assert(split(s@, sep@) =~= texts(pieces@) + split_from(s@, sep@, p as int, q as int));
        } else {
            q += 1;
        }
    }
    let ghost before = texts(pieces@);
    pieces.push(slice_of(s, p, s.len()));
    assert(texts(pieces@) =~= before.push(s@.subrange(p as int, s.len() as int)));
    assert(texts(pieces@) =~= before + seq![s@.subrange(p as int, s.len() as int)]);
    pieces
}

/// The number that a decimal digit stands for.
pub open spec fn digit_value(c: char) -> nat {
    (c as int - '0' as int) as nat
}

/// Whether `s` is made of decimal digits only.
pub open spec fn all_digits(s: Seq<char>) -> bool {
    forall|i: int| 0 <= i < s.len() ==> is_digit(#[trigger] s[i])
}

/// The number that the decimal digits `s` write, leading zeros allowed.
pub open spec fn decimal_value(s: Seq<char>) -> nat
    decreases s.len(),
{
    if s.len() == 0 {
        0
    } else {
        decimal_value(s.drop_last()) * 10 + digit_value(s.last())
    }
}

/// Whether `s` is a number in decimal that is at most `max`.
pub open spec fn is_number_up_to(s: Seq<char>, max: nat) -> bool {
    s.len() > 0 && all_digits(s) && decimal_value(s) <= max
}

/// A longer digit string never writes a smaller number than its beginning.
pub proof fn lemma_decimal_value_prefix(s: Seq<char>, k: int)
    requires
        0 <= k <= s.len(),
    ensures
        decimal_value(s.take(k)) <= decimal_value(s),
    decreases s.len() - k,
{
    if k == s.len() {
        assert(s.take(k) =~= s);
    } else {
        lemma_decimal_value_prefix(s.drop_last(), k);
        assert(s.drop_last().take(k) =~= s.take(k));
    }
}

/// Reads `s` as a number in decimal. `None` where `s` is empty, holds
/// something that is no digit, or writes a number above `max`.
pub fn parse_number(s: &Vec<char>, max: u64) -> (r: Option<u64>)
    ensures
        r is Some <==> is_number_up_to(s@, max as nat),
        r matches Some(v) ==> v == decimal_value(s@),
{
    if s.len() == 0 {
        return None;
    }
    let mut value: u64 = 0;
    let mut i: usize = 0;
    while i < s.len()
        invariant
            i <= s.len(),
            value == decimal_value(s@.take(i as int)),
            value <= max,
            all_digits(s@.take(i as int)),
        decreases s.len() - i,
    {
        let c = s[i];
        if !('0' <= c && c <= '9') {
            return None;
        }
        let d: u64 = (c as u32 - '0' as u32) as u64;
        assert(s@.take(i + 1).drop_last() =~= s@.take(i as int));
        assert(s@.take(i + 1).last() == c);
        proof {
            lemma_decimal_value_prefix(s@, i + 1);
        }
        if d > max || value > (max - d) / 10 {
            return None;
        }
        value = value * 10 + d;
        i += 1;
    }
    assert(s@.take(s.len() as int) =~= s@);
    Some(value)
}

/// The digit that writes `d`.
pub open spec fn digit_char(d: nat) -> char
    recommends
        d < 10,
{
    ('0' as int + d) as char
}

/// The decimal digits of `n`, without leading zeros.
pub open spec fn decimal_digits(n: nat) -> Seq<char>
    decreases n,
{
    if n < 10 {
        seq![digit_char(n)]
    } else {
        decimal_digits(n / 10).push(digit_char(n % 10))
    }
}

/// Appends the decimal digits of `n` to `out`.
pub fn push_decimal(n: u128, out: &mut Vec<char>)
    ensures
        final(out)@ == old(out)@ + decimal_digits(n as nat),
    decreases n,
{
    if n >= 10 {
        push_decimal(n / 10, out);
    }
    let d: u8 = (n % 10) as u8;
    let c: char = (48u8 + d) as char;
    out.push(c);
    assert(final(out)@ =~= old(out)@ + decimal_digits(n as nat));
}

/// The decimal digits of `n`, without leading zeros.
pub fn decimal_of(n: u128) -> (digits: Vec<char>)
    ensures
        digits@ == decimal_digits(n as nat),
{
    let mut digits: Vec<char> = Vec::new();
    push_decimal(n, &mut digits);
    digits
}

/// What `decimal_digits` writes, `decimal_value` reads back: the digits of a
/// number are digits, and they write that number.
pub proof fn lemma_decimal_round_trip(n: nat)
    ensures
        all_digits(decimal_digits(n)),
        decimal_digits(n).len() > 0,
        decimal_value(decimal_digits(n)) == n,
    decreases n,
{
    if n < 10 {
        let s = decimal_digits(n);
        assert(s.drop_last() =~= Seq::empty());
        assert(decimal_value(s.drop_last()) == 0);
    } else {
        lemma_decimal_round_trip(n / 10);
        let front = decimal_digits(n / 10);
        let s = decimal_digits(n);
        assert(s.drop_last() =~= front);
        assert(s.last() == digit_char(n % 10));
        assert forall|i: int| 0 <= i < s.len() implies is_digit(#[trigger] s[i]) by {
            if i < front.len() {
                assert(s[i] == front[i]);
            }
        }
    }
}

/// Whether `a` holds the text `b`.
pub fn same_text(a: &Vec<char>, b: &str) -> (r: bool)
    ensures
        r == (a@ == b@),
{
    let other = chars_of(b);
    if a.len() != other.len() {
        return false;
    }
    let mut i: usize = 0;
    while i < a.len()
        invariant
            i <= a.len(),
            a.len() == other.len(),
            other@ == b@,
            a@.take(i as int) == other@.take(i as int),
        decreases a.len() - i,
    {
        if a[i] != other[i] {
            return false;
        }
        assert(a@.take(i + 1) =~= a@.take(i as int).push(a@[i as int]));
        assert(other@.take(i + 1) =~= other@.take(i as int).push(other@[i as int]));
        i += 1;
    }
    assert(a@.take(a.len() as int) =~= a@);
    assert(other@.take(a.len() as int) =~= other@);
    true
}

} // verus!
