//! Character-level text handling shared by the configuration and output
//! readers: Unicode whitespace, trimming, splitting into pieces, unsigned
//! decimal numbers and ASCII case folding, all over `Seq<char>` views.

use vstd::prelude::*;

verus! {

/// The Unicode `White_Space` characters (what `char::is_whitespace` accepts).
pub open spec fn is_ws(c: char) -> bool {
    let u = c as u32;
    ||| 9 <= u <= 13
    ||| u == 32
    ||| u == 0x85
    ||| u == 0xa0
    ||| u == 0x1680
    ||| 0x2000 <= u <= 0x200a
    ||| u == 0x2028
    ||| u == 0x2029
    ||| u == 0x202f
    ||| u == 0x205f
    ||| u == 0x3000
}

/// Unicode whitespace test.
pub fn is_space(c: char) -> (b: bool)
    ensures
        b == is_ws(c),
{
    let u = c as u32;
    (9 <= u && u <= 13) || u == 32 || u == 0x85 || u == 0xa0 || u == 0x1680 || (0x2000 <= u && u
        <= 0x200a) || u == 0x2028 || u == 0x2029 || u == 0x202f || u == 0x205f || u == 0x3000
}

/// `s` without its leading whitespace.
pub open spec fn trim_start(s: Seq<char>) -> Seq<char>
    decreases s.len(),
{
    if s.len() > 0 && is_ws(s[0]) {
        trim_start(s.drop_first())
    } else {
        s
    }
}

/// `s` without its trailing whitespace.
pub open spec fn trim_end(s: Seq<char>) -> Seq<char>
    decreases s.len(),
{
    if s.len() > 0 && is_ws(s.last()) {
        trim_end(s.drop_last())
    } else {
        s
    }
}

/// `s` without leading and trailing whitespace.
pub open spec fn trim(s: Seq<char>) -> Seq<char> {
    trim_end(trim_start(s))
}

/// The two ways text is cut into pieces.
pub enum Separator {
    /// At every `'\n'`.
    Newline,
    /// At every whitespace character.
    Whitespace,
}

pub open spec fn is_sep(sep: Separator, c: char) -> bool {
    match sep {
        Separator::Newline => c == '\n',
        Separator::Whitespace => is_ws(c),
    }
}

/// The pieces between separators, in order; `n` separators give `n + 1`
/// pieces, some of which may be empty.
pub open spec fn pieces(s: Seq<char>, sep: Separator) -> Seq<Seq<char>>
    decreases s.len(),
{
    if s.len() == 0 {
        seq![Seq::<char>::empty()]
    } else {
        let p = pieces(s.drop_last(), sep);
        if is_sep(sep, s.last()) {
            p.push(Seq::<char>::empty())
        } else {
            p.update(p.len() - 1, p.last().push(s.last()))
        }
    }
}

/// The non-empty whitespace-separated words of `s`.
pub open spec fn words(s: Seq<char>) -> Seq<Seq<char>> {
    pieces(s, Separator::Whitespace).filter(|w: Seq<char>| w.len() > 0)
}

pub proof fn lemma_pieces_nonempty(s: Seq<char>, sep: Separator)
    ensures
        pieces(s, sep).len() >= 1,
    decreases s.len(),
{
    if s.len() > 0 {
        lemma_pieces_nonempty(s.drop_last(), sep);
    }
}

/// How `pieces` grows by one character: a separator closes the last piece,
/// another character extends it.
pub proof fn lemma_pieces_step(v: Seq<char>, i: int, sep: Separator)
    requires
        0 <= i < v.len(),
    ensures
        pieces(v.take(i), sep).len() >= 1,
        is_sep(sep, v[i]) ==> pieces(v.take(i + 1), sep) == pieces(v.take(i), sep).push(
            Seq::<char>::empty(),
        ),
        !is_sep(sep, v[i]) ==> pieces(v.take(i + 1), sep) == pieces(v.take(i), sep).update(
            pieces(v.take(i), sep).len() - 1,
            pieces(v.take(i), sep).last().push(v[i]),
        ),
{
    lemma_pieces_nonempty(v.take(i), sep);
    assert(v.take(i + 1).drop_last() =~= v.take(i));
}

/// Text with no separator in it is a single piece.
pub proof fn lemma_pieces_single(w: Seq<char>, sep: Separator)
    requires
        forall|i: int| 0 <= i < w.len() ==> !is_sep(sep, #[trigger] w[i]),
    ensures
        pieces(w, sep) == seq![w],
    decreases w.len(),
{
    if w.len() > 0 {
        lemma_pieces_single(w.drop_last(), sep);
        assert(w.drop_last().push(w.last()) =~= w);
        assert(!is_sep(sep, w[w.len() - 1]));
        assert(seq![w.drop_last()].update(0, w.drop_last().push(w.last())) =~= seq![w]);
    } else {
        assert(w =~= Seq::<char>::empty());
    }
}

/// The last piece holds no separator.
pub proof fn lemma_last_piece_clean(x: Seq<char>, sep: Separator)
    ensures
        pieces(x, sep).len() >= 1,
        forall|i: int|
            0 <= i < pieces(x, sep).last().len() ==> !is_sep(sep, #[trigger] pieces(x, sep).last()[i]),
    decreases x.len(),
{
    lemma_pieces_nonempty(x, sep);
    if x.len() > 0 {
        lemma_last_piece_clean(x.drop_last(), sep);
    }
}

/// Cutting text anywhere: the pieces of `x + y` are the finished pieces of
/// `x` followed by the pieces of `x`'s unfinished last piece continued by `y`.
pub proof fn lemma_pieces_concat(x: Seq<char>, y: Seq<char>, sep: Separator)
    ensures
        pieces(x + y, sep) == pieces(x, sep).drop_last() + pieces(pieces(x, sep).last() + y, sep),
    decreases y.len(),
{
    lemma_pieces_nonempty(x, sep);
    let i = pieces(x, sep).drop_last();
    let l = pieces(x, sep).last();
    if y.len() == 0 {
        assert(x + y =~= x);
        assert(l + y =~= l);
        lemma_last_piece_clean(x, sep);
        lemma_pieces_single(l, sep);
        assert(pieces(x, sep) =~= i + seq![l]);
    } else {
        let yi = y.drop_last();
        let c = y.last();
        lemma_pieces_concat(x, yi, sep);
        assert((x + y).drop_last() =~= x + yi);
        assert((l + y).drop_last() =~= l + yi);
        assert((x + y).last() == c);
        assert((l + y).last() == c);
        let q = pieces(l + yi, sep);
        lemma_pieces_nonempty(l + yi, sep);
        if is_sep(sep, c) {
            assert((i + q).push(Seq::<char>::empty()) =~= i + q.push(Seq::<char>::empty()));
        } else {
            let pq = i + q;
            assert(pq.update(pq.len() - 1, pq.last().push(c)) =~= i + q.update(
                q.len() - 1,
                q.last().push(c),
            ));
        }
    }
}

pub open spec fn is_digit(c: char) -> bool {
    '0' <= c <= '9'
}

/// The value of a string of decimal digits (0 for the empty string).
pub open spec fn digits_value(s: Seq<char>) -> int
    decreases s.len(),
{
    if s.len() == 0 {
        0
    } else {
        digits_value(s.drop_last()) * 10 + (s.last() as int - '0' as int)
    }
}

/// The digits of an unsigned number: one leading `+` is allowed.
pub open spec fn unsigned_digits(s: Seq<char>) -> Seq<char> {
    if s.len() > 0 && s[0] == '+' {
        s.drop_first()
    } else {
        s
    }
}

/// How Rust's `FromStr` for an unsigned integer type with largest value
/// `max` reads `s`: an optional `+`, then at least one ASCII digit and
/// nothing else, with a value not above `max`.
pub open spec fn parse_unsigned(s: Seq<char>, max: int) -> Option<int> {
    let d = unsigned_digits(s);
    if d.len() > 0 && (forall|i: int| 0 <= i < d.len() ==> is_digit(#[trigger] d[i]))
        && digits_value(d) <= max {
        Some(digits_value(d))
    } else {
        None
    }
}

pub proof fn lemma_digits_value_monotone(s: Seq<char>, k: int)
    requires
        0 <= k <= s.len(),
        forall|i: int| 0 <= i < s.len() ==> is_digit(#[trigger] s[i]),
    ensures
        0 <= digits_value(s.take(k)) <= digits_value(s),
    decreases s.len(),
{
    if s.len() > 0 {
        if k == s.len() {
            assert(s.take(k) =~= s);
            lemma_digits_value_monotone(s.drop_last(), k - 1);
            assert(s.drop_last().take(k - 1) =~= s.drop_last());
        } else {
            lemma_digits_value_monotone(s.drop_last(), k);
            assert(s.drop_last().take(k) =~= s.take(k));
            assert(s.drop_last().take(s.len() - 1) =~= s.drop_last());
            lemma_digits_value_monotone(s.drop_last(), s.len() - 1);
        }
    } else {
        assert(s.take(k) =~= s);
    }
}

/// Reads `v[lo..hi]` as an unsigned number no larger than `max`.
pub fn parse_unsigned_range(v: &Vec<char>, lo: usize, hi: usize, max: u64) -> (r: Option<u64>)
    requires
        lo <= hi <= v@.len(),
    ensures
        match r {
            Some(y) => parse_unsigned(v@.subrange(lo as int, hi as int), max as int) == Some(
                y as int,
            ),
            None => parse_unsigned(v@.subrange(lo as int, hi as int), max as int) is None,
        },
{
    let ghost s = v@.subrange(lo as int, hi as int);
    let mut start = lo;
    if lo < hi && v[lo] == '+' {
        start = lo + 1;
    }
    let ghost d = v@.subrange(start as int, hi as int);
    assert(unsigned_digits(s) =~= d);
    if start == hi {
        return None;
    }
    let mut acc: u64 = 0;
    let mut i = start;
    while i < hi
        invariant
            start <= i <= hi <= v@.len(),
            d == v@.subrange(start as int, hi as int),
            unsigned_digits(v@.subrange(lo as int, hi as int)) == d,
            d.len() > 0,
            forall|k: int| 0 <= k < i - start ==> is_digit(#[trigger] d[k]),
            acc as int == digits_value(d.take(i - start)),
            acc <= max,
        decreases hi - i,
    {
        let c = v[i];
        if !('0' <= c && c <= '9') {
            assert(d[i - start] == c);
            assert(!is_digit(d[i - start]));
            return None;
        }
        let digit = (c as u32 - '0' as u32) as u64;
        assert(d.take(i - start + 1).drop_last() =~= d.take(i - start));
        assert(digits_value(d.take(i - start + 1)) == acc * 10 + digit);
        if digit > max || acc > (max - digit) / 10 {
            if digit <= max {
                assert(acc * 10 + digit > max) by (nonlinear_arith)
                    requires
                        acc > (max - digit) / 10,
                        digit <= max,
                ;
            }
            proof {
                let k = i - start + 1;
                if forall|j: int| 0 <= j < d.len() ==> is_digit(#[trigger] d[j]) {
                    lemma_digits_value_monotone(d, k);
                }
            }
            return None;
        }
        assert(acc * 10 + digit <= max) by (nonlinear_arith)
            requires
                acc <= (max - digit) / 10,
                digit <= max,
        ;
        acc = acc * 10 + digit;
        i = i + 1;
    }
    assert(d.take(hi - start) =~= d);
    Some(acc)
}

/// ASCII case folding of one character, as a code point.
pub open spec fn lower_code(c: char) -> u32 {
    if 'A' <= c <= 'Z' {
        (c as u32 + 32) as u32
    } else {
        c as u32
    }
}

/// `key`, folded to lower case, is `word` (a lower-case ASCII word).
pub open spec fn folds_to(key: Seq<char>, word: Seq<char>) -> bool {
    &&& key.len() == word.len()
    &&& forall|i: int| 0 <= i < key.len() ==> lower_code(#[trigger] key[i]) == word[i] as u32
}

/// Whether `v[lo..hi]` folds to `word` under ASCII case folding.
pub fn range_folds_to(v: &Vec<char>, lo: usize, hi: usize, word: &[char]) -> (b: bool)
    requires
        lo <= hi <= v@.len(),
    ensures
        b == folds_to(v@.subrange(lo as int, hi as int), word@),
{
    let ghost key = v@.subrange(lo as int, hi as int);
    if hi - lo != word.len() {
        return false;
    }
    let mut i: usize = 0;
    while i < word.len()
        invariant
            hi - lo == word@.len(),
            lo <= hi <= v@.len(),
            key == v@.subrange(lo as int, hi as int),
            i <= word@.len(),
            forall|k: int| 0 <= k < i ==> lower_code(#[trigger] key[k]) == word@[k] as u32,
        decreases word.len() - i,
    {
        let c = v[lo + i];
        let u = c as u32;
        let l: u32 = if 'A' <= c && c <= 'Z' {
            u + 32
        } else {
            u
        };
        assert(key[i as int] == c);
        if l != word[i] as u32 {
            return false;
        }
        i = i + 1;
    }
    true
}

/// Appends one character (std's `String::push`).
#[verifier::external_body]
pub fn push_char(s: &mut String, c: char)
    ensures
        final(s)@ == old(s)@.push(c),
{
    s.push(c)
}

/// What `String::from_utf8_lossy` makes of `bytes`: their UTF-8 decoding,
/// each invalid sequence replaced by U+FFFD.
pub uninterp spec fn utf8_lossy(bytes: Seq<u8>) -> Seq<char>;

/// std's `String::from_utf8_lossy`: the text is named by [`utf8_lossy`]; for
/// valid UTF-8 it is exactly the decoded characters.
#[verifier::external_body]
pub fn lossy_text(bytes: &[u8]) -> (s: String)
    ensures
        s@ == utf8_lossy(bytes@),
        vstd::utf8::valid_utf8(bytes@) ==> s@ == vstd::utf8::decode_utf8(bytes@),
{
    String::from_utf8_lossy(bytes).into_owned()
}

/// The characters of `s`, in order.
pub fn chars_of(s: &str) -> (v: Vec<char>)
    ensures
        v@ == s@,
{
    let mut v: Vec<char> = Vec::new();
    for c in it: s.chars()
        invariant
            v@ == it.seq().take(it.index() as int),
    {
        v.push(c);
    }
    v
}

/// A `String` holding `v[lo..hi]`.
pub fn string_of(v: &Vec<char>, lo: usize, hi: usize) -> (s: String)
    requires
        lo <= hi <= v@.len(),
    ensures
        s@ == v@.subrange(lo as int, hi as int),
{
    let mut s = String::new();
    let mut i = lo;
    while i < hi
        invariant
            lo <= i <= hi <= v@.len(),
            s@ == v@.subrange(lo as int, i as int),
        decreases hi - i,
    {
        push_char(&mut s, v[i]);
        assert(v@.subrange(lo as int, i + 1) =~= v@.subrange(lo as int, i as int).push(v@[i as int]));
        i = i + 1;
    }
    s
}

/// Whether two texts are the same sequence of characters.
pub fn same_text(a: &str, b: &str) -> (r: bool)
    ensures
        r == (a@ == b@),
{
    let x = chars_of(a);
    let y = chars_of(b);
    if x.len() != y.len() {
        return false;
    }
    let mut i: usize = 0;
    while i < x.len()
        invariant
            x@ == a@,
            y@ == b@,
            x@.len() == y@.len(),
            i <= x@.len(),
            forall|k: int| 0 <= k < i ==> x@[k] == y@[k],
        decreases x.len() - i,
    {
        if x[i] != y[i] {
            return false;
        }
        i = i + 1;
    }
    assert(x@ =~= y@);
    true
}

/// The bounds of `v[lo..hi]` with its surrounding whitespace removed.
pub fn trim_bounds(v: &Vec<char>, lo: usize, hi: usize) -> (r: (usize, usize))
    requires
        lo <= hi <= v@.len(),
    ensures
        lo <= r.0 <= r.1 <= hi,
        v@.subrange(r.0 as int, r.1 as int) == trim(v@.subrange(lo as int, hi as int)),
{
    let mut a = lo;
    while a < hi && is_space(v[a])
        invariant
            lo <= a <= hi <= v@.len(),
            trim_start(v@.subrange(lo as int, hi as int)) == trim_start(
                v@.subrange(a as int, hi as int),
            ),
        decreases hi - a,
    {
        assert(v@.subrange(a as int, hi as int).drop_first() =~= v@.subrange(a + 1, hi as int));
        a = a + 1;
    }
    let ghost ts = v@.subrange(a as int, hi as int);
    assert(trim_start(ts) == ts);
    let mut b = hi;
    while b > a && is_space(v[b - 1])
        invariant
            lo <= a <= b <= hi <= v@.len(),
            trim_end(ts) == trim_end(v@.subrange(a as int, b as int)),
            ts == v@.subrange(a as int, hi as int),
        decreases b - a,
    {
        assert(v@.subrange(a as int, b as int).drop_last() =~= v@.subrange(a as int, b - 1));
        b = b - 1;
    }
    (a, b)
}

/// The text `s` with its surrounding whitespace removed.
pub fn trimmed(s: &str) -> (t: String)
    ensures
        t@ == trim(s@),
{
    let v = chars_of(s);
    let (a, b) = trim_bounds(&v, 0, v.len());
    assert(v@.subrange(0, v@.len() as int) =~= v@);
    string_of(&v, a, b)
}

} // verus!
