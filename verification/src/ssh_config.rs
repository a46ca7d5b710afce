//! Minimal `~/.ssh/config` reader: resolves a Host alias to HostName / Port /
//! User / IdentityFile, so that aliases and configured keys work as in the
//! OpenSSH client. The file's text is handed in; reading it is the caller's.

use vstd::prelude::*;
use crate::text::{
    chars_of, folds_to, is_space, lower_code, is_ws, lemma_pieces_nonempty, lemma_pieces_step, parse_unsigned,
    parse_unsigned_range, pieces, range_folds_to, string_of, trim, trim_bounds, trim_end, trim_start,
    Separator,
};

verus! {

/// What the configuration says about one host.
pub struct ResolvedHost {
    pub hostname: Option<String>,
    pub port: Option<u16>,
    pub user: Option<String>,
    /// IdentityFile values as written; a leading `~/` is for the caller to
    /// expand against the home directory (see [`home_relative`]).
    pub identity_files: Vec<String>,
}

/// The mathematical value of a [`ResolvedHost`].
pub struct ResolvedHostView {
    pub hostname: Option<Seq<char>>,
    pub port: Option<u16>,
    pub user: Option<Seq<char>>,
    pub identity_files: Seq<Seq<char>>,
}

pub open spec fn opt_text(o: Option<String>) -> Option<Seq<char>> {
    match o {
        Some(s) => Some(s@),
        None => None,
    }
}

impl View for ResolvedHost {
    type V = ResolvedHostView;

    open spec fn view(&self) -> ResolvedHostView {
        ResolvedHostView {
            hostname: opt_text(self.hostname),
            port: self.port,
            user: opt_text(self.user),
            identity_files: self.identity_files@.map_values(|s: String| s@),
        }
    }
}

pub open spec fn empty_resolution() -> ResolvedHostView {
    ResolvedHostView {
        hostname: None,
        port: None,
        user: None,
        identity_files: Seq::empty(),
    }
}

/// A Host pattern with a `*` at index `k` (its first `*`) matches `host`:
/// `host` starts with what precedes the star, ends with what follows it, and
/// is long enough for the two not to overlap.
pub open spec fn star_matches(pattern: Seq<char>, k: int, host: Seq<char>) -> bool {
    let pre = pattern.take(k);
    let post = pattern.skip(k + 1);
    &&& host.len() >= pre.len() + post.len()
    &&& host.take(pre.len() as int) == pre
    &&& host.skip(host.len() - post.len()) == post
}

/// Whether a Host pattern matches `host`: `*` alone, the exact name, or a
/// pattern whose first `*` stands for any (possibly empty) run of characters.
pub open spec fn glob_matches(pattern: Seq<char>, host: Seq<char>) -> bool {
    ||| pattern == seq!['*']
    ||| pattern == host
    ||| exists|k: int|
        0 <= k < pattern.len() && pattern[k] == '*' && (forall|j: int|
            0 <= j < k ==> #[trigger] pattern[j] != '*') && star_matches(pattern, k, host)
}

/// A Host line applies when one of its whitespace-separated words matches.
pub open spec fn host_line_applies(value: Seq<char>, host: Seq<char>) -> bool {
    exists|k: int|
        0 <= k < pieces(value, Separator::Whitespace).len() && (#[trigger] pieces(
            value,
            Separator::Whitespace,
        )[k]).len() > 0 && glob_matches(pieces(value, Separator::Whitespace)[k], host)
}

/// Ends a keyword: whitespace or `=`.
pub open spec fn is_key_delim(c: char) -> bool {
    is_ws(c) || c == '='
}

/// Index of the first keyword delimiter in `s` (`s.len()` if there is none).
pub open spec fn key_end(s: Seq<char>) -> int
    decreases s.len(),
{
    if s.len() == 0 {
        0
    } else if is_key_delim(s[0]) {
        0
    } else {
        1 + key_end(s.drop_first())
    }
}

/// `s` without its leading `=` characters.
pub open spec fn strip_equals(s: Seq<char>) -> Seq<char>
    decreases s.len(),
{
    if s.len() > 0 && s[0] == '=' {
        strip_equals(s.drop_first())
    } else {
        s
    }
}

/// The keyword of a (trimmed, non-empty) configuration line.
pub open spec fn line_key(t: Seq<char>) -> Seq<char> {
    t.take(key_end(t))
}

/// The value of a (trimmed, non-empty) configuration line: what follows the
/// delimiter, trimmed, without leading `=`, trimmed again.
pub open spec fn line_value(t: Seq<char>) -> Seq<char> {
    let e = key_end(t);
    let rest = if e < t.len() {
        t.skip(e + 1)
    } else {
        Seq::<char>::empty()
    };
    trim(strip_equals(trim(rest)))
}

/// Reader state between lines: whether the last Host line applied, and what
/// has been found so far.
pub struct ReaderState {
    pub applies: bool,
    pub found: ResolvedHostView,
}

/// One line of the configuration applied to the reader state. Keywords are
/// compared case-insensitively; blank lines and `#` comments are skipped.
pub open spec fn read_line(st: ReaderState, line: Seq<char>, host: Seq<char>) -> ReaderState {
    let t = trim(line);
    if t.len() == 0 || t[0] == '#' {
        st
    } else {
        let key = line_key(t);
        let val = line_value(t);
        if folds_to(key, seq!['h', 'o', 's', 't']) {
            ReaderState { applies: host_line_applies(val, host), found: st.found }
        } else if !st.applies {
            st
        } else if folds_to(key, seq!['h', 'o', 's', 't', 'n', 'a', 'm', 'e']) {
            ReaderState { applies: true, found: ResolvedHostView { hostname: Some(val), ..st.found } }
        } else if folds_to(key, seq!['p', 'o', 'r', 't']) {
            ReaderState {
                applies: true,
                found: ResolvedHostView {
                    port: match parse_unsigned(val, 65535) {
                        Some(p) => Some(p as u16),
                        None => None,
                    },
                    ..st.found
                },
            }
        } else if folds_to(key, seq!['u', 's', 'e', 'r']) {
            ReaderState { applies: true, found: ResolvedHostView { user: Some(val), ..st.found } }
        } else if folds_to(
            key,
            seq!['i', 'd', 'e', 'n', 't', 'i', 't', 'y', 'f', 'i', 'l', 'e'],
        ) {
            ReaderState {
                applies: true,
                found: ResolvedHostView {
                    identity_files: st.found.identity_files.push(val),
                    ..st.found
                },
            }
        } else {
            st
        }
    }
}

/// `a` and `b` are the same word up to ASCII case.
pub open spec fn same_up_to_case(a: Seq<char>, b: Seq<char>) -> bool {
    &&& a.len() == b.len()
    &&& forall|i: int| 0 <= i < a.len() ==> lower_code(#[trigger] a[i]) == lower_code(b[i])
}

/// Two lines that differ only in how their keyword is capitalised.
pub open spec fn same_line_up_to_keyword_case(l1: Seq<char>, l2: Seq<char>) -> bool {
    let t1 = trim(l1);
    let t2 = trim(l2);
    &&& same_up_to_case(line_key(t1), line_key(t2))
    &&& line_value(t1) == line_value(t2)
    &&& (t1.len() == 0 <==> t2.len() == 0)
}

proof fn lemma_key_starts_line(t: Seq<char>)
    requires
        t.len() > 0,
        !is_ws(t[0]),
    ensures
        line_key(t).len() == 0 ==> t[0] == '=',
        line_key(t).len() > 0 ==> line_key(t)[0] == t[0],
{
    lemma_key_end_bounds(t);
    lemma_key_end_bounds(t.drop_first());
}

proof fn lemma_lower_hash(c: char)
    ensures
        lower_code(c) == '#' as u32 <==> c == '#',
{
    if 'A' <= c <= 'Z' {
        assert(65 <= c as u32 <= 90);
    }
}

proof fn lemma_key_end_bounds(s: Seq<char>)
    ensures
        0 <= key_end(s) <= s.len(),
    decreases s.len(),
{
    if s.len() > 0 && !is_key_delim(s[0]) {
        lemma_key_end_bounds(s.drop_first());
    }
}

proof fn lemma_trim_start_first(s: Seq<char>)
    ensures
        trim_start(s).len() > 0 ==> !is_ws(trim_start(s)[0]),
    decreases s.len(),
{
    if s.len() > 0 && is_ws(s[0]) {
        lemma_trim_start_first(s.drop_first());
    }
}

proof fn lemma_trim_end_prefix(s: Seq<char>)
    ensures
        trim_end(s).len() <= s.len(),
        trim_end(s) == s.take(trim_end(s).len() as int),
    decreases s.len(),
{
    if s.len() > 0 && is_ws(s.last()) {
        lemma_trim_end_prefix(s.drop_last());
        assert(s.drop_last().take(trim_end(s).len() as int) =~= s.take(trim_end(s).len() as int));
    } else {
        assert(s.take(s.len() as int) =~= s);
    }
}

proof fn lemma_trim_first_not_ws(line: Seq<char>)
    ensures
        trim(line).len() > 0 ==> !is_ws(trim(line)[0]),
{
    lemma_trim_start_first(line);
    lemma_trim_end_prefix(trim_start(line));
    if trim(line).len() > 0 {
        assert(trim(line)[0] == trim_start(line)[0]);
    }
}

/// Keywords are matched without regard to ASCII case: two lines that differ
/// only in the capitalisation of their keyword (`user`, `User`, `USER`, ...)
/// have the same effect on the reader, whatever its state.
pub proof fn lemma_keyword_case_insensitive(
    st: ReaderState,
    l1: Seq<char>,
    l2: Seq<char>,
    host: Seq<char>,
)
    requires
        same_line_up_to_keyword_case(l1, l2),
    ensures
        read_line(st, l1, host) == read_line(st, l2, host),
{
    let t1 = trim(l1);
    let t2 = trim(l2);
    let k1 = line_key(t1);
    let k2 = line_key(t2);
    if t1.len() > 0 {
        lemma_trim_first_not_ws(l1);
        lemma_trim_first_not_ws(l2);
        lemma_key_starts_line(t1);
        lemma_key_starts_line(t2);
        if k1.len() > 0 {
            assert(lower_code(k1[0]) == lower_code(k2[0]));
            lemma_lower_hash(k1[0]);
            lemma_lower_hash(k2[0]);
            assert(t1[0] == '#' <==> t2[0] == '#');
        }
        assert forall|w: Seq<char>| folds_to(k1, w) <==> folds_to(k2, w) by {
            if folds_to(k1, w) {
                assert forall|i: int| 0 <= i < k2.len() implies lower_code(#[trigger] k2[i])
                    == w[i] as u32 by {
                    assert(lower_code(k1[i]) == lower_code(k2[i]));
                }
            }
            if folds_to(k2, w) {
                assert forall|i: int| 0 <= i < k1.len() implies lower_code(#[trigger] k1[i])
                    == w[i] as u32 by {
                    assert(lower_code(k1[i]) == lower_code(k2[i]));
                }
            }
        }
        assert(folds_to(k1, seq!['h', 'o', 's', 't']) == folds_to(k2, seq!['h', 'o', 's', 't']));
        assert(folds_to(k1, seq!['h', 'o', 's', 't', 'n', 'a', 'm', 'e']) == folds_to(
            k2,
            seq!['h', 'o', 's', 't', 'n', 'a', 'm', 'e'],
        ));
        assert(folds_to(k1, seq!['p', 'o', 'r', 't']) == folds_to(k2, seq!['p', 'o', 'r', 't']));
        assert(folds_to(k1, seq!['u', 's', 'e', 'r']) == folds_to(k2, seq!['u', 's', 'e', 'r']));
        assert(folds_to(k1, seq!['i', 'd', 'e', 'n', 't', 'i', 't', 'y', 'f', 'i', 'l', 'e'])
            == folds_to(k2, seq!['i', 'd', 'e', 'n', 't', 'i', 't', 'y', 'f', 'i', 'l', 'e']));
    }
}

/// Under a Host line that applies, a line whose keyword is `user` in any
/// capitalisation sets the user to that line's value and leaves the rest of
/// what was found, and the applying Host, as they were.
pub proof fn lemma_user_any_case(st: ReaderState, line: Seq<char>, host: Seq<char>)
    requires
        st.applies,
        folds_to(line_key(trim(line)), seq!['u', 's', 'e', 'r']),
    ensures
        read_line(st, line, host) == (ReaderState {
            applies: true,
            found: ResolvedHostView { user: Some(line_value(trim(line))), ..st.found },
        }),
{
    let t = trim(line);
    let k = line_key(t);
    lemma_key_end_bounds(t);
    assert(t.len() > 0);
    lemma_trim_first_not_ws(line);
    lemma_key_starts_line(t);
    assert(lower_code(k[0]) == 'u' as u32);
    assert(t[0] != '#');
    assert(!folds_to(k, seq!['h', 'o', 's', 't'])) by {
        assert(lower_code(k[0]) != 'h' as u32);
    }
    assert(!folds_to(k, seq!['p', 'o', 'r', 't'])) by {
        assert(lower_code(k[0]) != 'p' as u32);
    }
}

/// Lines read pairwise the same up to keyword case give the same result:
/// a configuration that writes `user x` resolves exactly as one that writes
/// `User x` in its place.
pub proof fn lemma_lines_keyword_case_insensitive(
    a: Seq<Seq<char>>,
    b: Seq<Seq<char>>,
    host: Seq<char>,
)
    requires
        a.len() == b.len(),
        forall|i: int| 0 <= i < a.len() ==> same_line_up_to_keyword_case(#[trigger] a[i], b[i]),
    ensures
        read_lines(a, host) == read_lines(b, host),
    decreases a.len(),
{
    if a.len() > 0 {
        let n = a.len() - 1;
        assert forall|i: int| 0 <= i < n implies same_line_up_to_keyword_case(
            #[trigger] a.drop_last()[i],
            b.drop_last()[i],
        ) by {
            assert(a.drop_last()[i] == a[i] && b.drop_last()[i] == b[i]);
        }
        lemma_lines_keyword_case_insensitive(a.drop_last(), b.drop_last(), host);
        assert(same_line_up_to_keyword_case(a[n], b[n]));
        lemma_keyword_case_insensitive(read_lines(a.drop_last(), host), a.last(), b.last(), host);
    }
}

/// The lines, applied in order, from the initial state.
pub open spec fn read_lines(lines: Seq<Seq<char>>, host: Seq<char>) -> ReaderState
    decreases lines.len(),
{
    if lines.len() == 0 {
        ReaderState { applies: false, found: empty_resolution() }
    } else {
        read_line(read_lines(lines.drop_last(), host), lines.last(), host)
    }
}

/// What a configuration text says about `host`. Every `'\n'`-separated
/// piece is trimmed before it is read, so a `\r` before the newline and an
/// empty piece after the final newline change nothing.
pub open spec fn resolve_spec(text: Seq<char>, host: Seq<char>) -> ResolvedHostView {
    read_lines(pieces(text, Separator::Newline), host).found
}

/// A copy of `v[lo..hi]`.
fn sub_vec(v: &Vec<char>, lo: usize, hi: usize) -> (r: Vec<char>)
    requires
        lo <= hi <= v@.len(),
    ensures
        r@ == v@.subrange(lo as int, hi as int),
{
    let mut r: Vec<char> = Vec::new();
    let mut i = lo;
    while i < hi
        invariant
            lo <= i <= hi <= v@.len(),
            r@ == v@.subrange(lo as int, i as int),
        decreases hi - i,
    {
        r.push(v[i]);
        assert(v@.subrange(lo as int, i + 1) =~= v@.subrange(lo as int, i as int).push(v@[i as int]));
        i = i + 1;
    }
    r
}

/// Whether `a[alo..ahi]` and `b[blo..bhi]` are the same characters.
fn ranges_equal(a: &Vec<char>, alo: usize, ahi: usize, b: &Vec<char>, blo: usize, bhi: usize) -> (r:
    bool)
    requires
        alo <= ahi <= a@.len(),
        blo <= bhi <= b@.len(),
    ensures
        r == (a@.subrange(alo as int, ahi as int) == b@.subrange(blo as int, bhi as int)),
{
    if ahi - alo != bhi - blo {
        assert(a@.subrange(alo as int, ahi as int).len() != b@.subrange(blo as int, bhi as int).len());
        return false;
    }
    let n = ahi - alo;
    let ghost sa = a@.subrange(alo as int, ahi as int);
    let ghost sb = b@.subrange(blo as int, bhi as int);
    let mut i: usize = 0;
    while i < n
        invariant
            n == ahi - alo,
            n == bhi - blo,
            alo <= ahi <= a@.len(),
            blo <= bhi <= b@.len(),
            sa == a@.subrange(alo as int, ahi as int),
            sb == b@.subrange(blo as int, bhi as int),
            i <= n,
            forall|k: int| 0 <= k < i ==> #[trigger] sa[k] == sb[k],
        decreases n - i,
    {
        assert(sa[i as int] == a@[alo + i]);
        assert(sb[i as int] == b@[blo + i]);
        if a[alo + i] != b[blo + i] {
            return false;
        }
        i = i + 1;
    }
    assert(sa =~= sb);
    true
}

/// Host-pattern match of `p` against `h`.
fn glob_match_chars(p: &Vec<char>, h: &Vec<char>) -> (r: bool)
    ensures
        r == glob_matches(p@, h@),
{
    if p.len() == 1 && p[0] == '*' {
        assert(p@ =~= seq!['*']);
        return true;
    }
    if ranges_equal(p, 0, p.len(), h, 0, h.len()) {
        assert(p@.subrange(0, p@.len() as int) =~= p@);
        assert(h@.subrange(0, h@.len() as int) =~= h@);
        return true;
    }
    assert(p@.subrange(0, p@.len() as int) =~= p@);
    assert(h@.subrange(0, h@.len() as int) =~= h@);
    let mut k: usize = 0;
    while k < p.len() && p[k] != '*'
        invariant
            k <= p@.len(),
            forall|j: int| 0 <= j < k ==> p@[j] != '*',
        decreases p.len() - k,
    {
        k = k + 1;
    }
    if k == p.len() {
        assert forall|k2: int|
            0 <= k2 < p@.len() && p@[k2] == '*' && (forall|j: int|
                0 <= j < k2 ==> #[trigger] p@[j] != '*') implies !star_matches(p@, k2, h@) by {}
        return false;
    }
    let pre_len = k;
    let post_len = p.len() - k - 1;
    let ok = h.len() >= pre_len + post_len && ranges_equal(p, 0, k, h, 0, pre_len)
        && ranges_equal(p, k + 1, p.len(), h, h.len() - post_len, h.len());
    proof {
        assert(p@.take(k as int) =~= p@.subrange(0, k as int));
        assert(p@.skip(k + 1) =~= p@.subrange(k + 1, p@.len() as int));
        if h@.len() >= pre_len + post_len {
            assert(h@.take(pre_len as int) =~= h@.subrange(0, pre_len as int));
            assert(h@.skip(h@.len() - post_len) =~= h@.subrange(
                h@.len() - post_len,
                h@.len() as int,
            ));
        }
        assert forall|k2: int|
            0 <= k2 < p@.len() && p@[k2] == '*' && (forall|j: int|
                0 <= j < k2 ==> #[trigger] p@[j] != '*') implies k2 == k by {
            if k2 < k {
            } else if k2 > k {
                assert(p@[k as int] != '*');
            }
        }
        if ok {
            assert(star_matches(p@, k as int, h@));
        }
    }
    ok
}

/// Whether the Host pattern `pattern` matches `host`.
pub fn matches(pattern: &str, host: &str) -> (r: bool)
    ensures
        r == glob_matches(pattern@, host@),
{
    let p = chars_of(pattern);
    let h = chars_of(host);
    glob_match_chars(&p, &h)
}

/// For an IdentityFile written as `~/rest`, the `rest` that is to be joined to
/// the home directory; `None` for any other path.
pub fn home_relative(path: &str) -> (r: Option<String>)
    ensures
        path@.len() >= 2 && path@[0] == '~' && path@[1] == '/' ==> r == Some::<String>(r->0) && r->0@
            == path@.skip(2),
        !(path@.len() >= 2 && path@[0] == '~' && path@[1] == '/') ==> r is None,
{
    let v = chars_of(path);
    if v.len() >= 2 && v[0] == '~' && v[1] == '/' {
        let s = string_of(&v, 2, v.len());
        assert(v@.subrange(2, v@.len() as int) =~= v@.skip(2));
        Some(s)
    } else {
        None
    }
}

/// Whether one of the whitespace-separated words of `val` matches `host`.
fn any_word_matches(val: &Vec<char>, host: &Vec<char>) -> (r: bool)
    ensures
        r == host_line_applies(val@, host@),
{
    let n = val.len();
    let mut start: usize = 0;
    let mut i: usize = 0;
    proof {
        assert(val@.take(0) =~= Seq::<char>::empty());
    }
    while i < n
        invariant
            n == val@.len(),
            start <= i <= n,
            pieces(val@.take(i as int), Separator::Whitespace).len() >= 1,
            pieces(val@.take(i as int), Separator::Whitespace).last() == val@.subrange(
                start as int,
                i as int,
            ),
            forall|k: int|
                0 <= k < pieces(val@.take(i as int), Separator::Whitespace).len() - 1 ==> !((
                #[trigger] pieces(val@.take(i as int), Separator::Whitespace)[k]).len() > 0
                    && glob_matches(pieces(val@.take(i as int), Separator::Whitespace)[k], host@)),
        decreases n - i,
    {
        let ghost p = pieces(val@.take(i as int), Separator::Whitespace);
        proof {
            lemma_pieces_step(val@, i as int, Separator::Whitespace);
        }
        if is_space(val[i]) {
            if start < i {
                let w = sub_vec(val, start, i);
                if glob_match_chars(&w, host) {
                    proof {
                        let q = pieces(val@, Separator::Whitespace);
                        lemma_pieces_prefix(val@, i + 1, Separator::Whitespace);
                        assert(q[p.len() - 1] == p[p.len() - 1]);
                    }
                    return true;
                }
            }
            assert(val@.subrange(i + 1, i + 1) =~= Seq::<char>::empty());
            start = i + 1;
        } else {
            assert(val@.subrange(start as int, i + 1) =~= val@.subrange(start as int, i as int).push(
                val@[i as int],
            ));
        }
        i = i + 1;
    }
    assert(val@.take(n as int) =~= val@);
    if start < n {
        let w = sub_vec(val, start, n);
        if glob_match_chars(&w, host) {
            return true;
        }
    }
    false
}

/// Earlier pieces are unchanged by what comes later: every piece of a
/// prefix but the last is a piece of the whole text.
pub proof fn lemma_pieces_prefix(v: Seq<char>, i: int, sep: Separator)
    requires
        0 <= i <= v.len(),
    ensures
        pieces(v.take(i), sep).len() >= 1,
        pieces(v, sep).len() >= pieces(v.take(i), sep).len(),
        forall|k: int|
            0 <= k < pieces(v.take(i), sep).len() - 1 ==> #[trigger] pieces(v, sep)[k] == pieces(
                v.take(i),
                sep,
            )[k],
    decreases v.len() - i,
{
    lemma_pieces_nonempty(v.take(i), sep);
    if i == v.len() {
        assert(v.take(i) =~= v);
    } else {
        lemma_pieces_prefix(v, i + 1, sep);
        lemma_pieces_step(v, i, sep);
    }
}

/// Applies one configuration line to the reader state.
fn read_line_exec(line: &Vec<char>, host: &Vec<char>, applies: &mut bool, found: &mut ResolvedHost)
    ensures
        read_line(ReaderState { applies: *old(applies), found: old(found)@ }, line@, host@)
            == (ReaderState { applies: *final(applies), found: final(found)@ }),
{
    let n = line.len();
    let (a, b) = trim_bounds(line, 0, n);
    assert(line@.subrange(0, n as int) =~= line@);
    let ghost t = line@.subrange(a as int, b as int);
    if a == b || line[a] == '#' {
        return;
    }
    // The keyword runs up to the first whitespace or '='.
    let mut e = a;
    while e < b && !(is_space(line[e]) || line[e] == '=')
        invariant
            a <= e <= b <= line@.len(),
            t == line@.subrange(a as int, b as int),
            key_end(t) == (e - a) + key_end(line@.subrange(e as int, b as int)),
        decreases b - e,
    {
        assert(line@.subrange(e as int, b as int).drop_first() =~= line@.subrange(e + 1, b as int));
        e = e + 1;
    }
    assert(key_end(line@.subrange(e as int, b as int)) == 0);
    assert(line_key(t) =~= line@.subrange(a as int, e as int));
    let rlo = if e < b {
        e + 1
    } else {
        b
    };
    assert(line_value(t) == trim(strip_equals(trim(line@.subrange(rlo as int, b as int))))) by {
        if e < b {
            assert(t.skip(e - a + 1) =~= line@.subrange(rlo as int, b as int));
        } else {
            assert(line@.subrange(rlo as int, b as int) =~= Seq::<char>::empty());
        }
    }
    let (c0, d0) = trim_bounds(line, rlo, b);
    let mut c = c0;
    while c < d0 && line[c] == '='
        invariant
            c0 <= c <= d0 <= line@.len(),
            strip_equals(line@.subrange(c0 as int, d0 as int)) == strip_equals(
                line@.subrange(c as int, d0 as int),
            ),
        decreases d0 - c,
    {
        assert(line@.subrange(c as int, d0 as int).drop_first() =~= line@.subrange(c + 1, d0 as int));
        c = c + 1;
    }
    assert(strip_equals(line@.subrange(c as int, d0 as int)) == line@.subrange(c as int, d0 as int));
    let (f, g) = trim_bounds(line, c, d0);
    let ghost val = line@.subrange(f as int, g as int);
    assert(line_value(t) == val);
    let ghost st = ReaderState { applies: *applies, found: found@ };
    assert(trim(line@) == t);
    let w_host: [char; 4] = ['h', 'o', 's', 't'];
    let w_hostname: [char; 8] = ['h', 'o', 's', 't', 'n', 'a', 'm', 'e'];
    let w_port: [char; 4] = ['p', 'o', 'r', 't'];
    let w_user: [char; 4] = ['u', 's', 'e', 'r'];
    let w_identity: [char; 12] = ['i', 'd', 'e', 'n', 't', 'i', 't', 'y', 'f', 'i', 'l', 'e'];
    assert(w_host@ =~= seq!['h', 'o', 's', 't']);
    assert(w_hostname@ =~= seq!['h', 'o', 's', 't', 'n', 'a', 'm', 'e']);
    assert(w_port@ =~= seq!['p', 'o', 'r', 't']);
    assert(w_user@ =~= seq!['u', 's', 'e', 'r']);
    assert(w_identity@ =~= seq!['i', 'd', 'e', 'n', 't', 'i', 't', 'y', 'f', 'i', 'l', 'e']);
    if range_folds_to(line, a, e, &w_host) {
        let value = sub_vec(line, f, g);
        *applies = any_word_matches(&value, host);
    } else if !*applies {
    } else if range_folds_to(line, a, e, &w_hostname) {
        found.hostname = Some(string_of(line, f, g));
    } else if range_folds_to(line, a, e, &w_port) {
        found.port = match parse_unsigned_range(line, f, g, 65535) {
            Some(p) => Some(p as u16),
            None => None,
        };
    } else if range_folds_to(line, a, e, &w_user) {
        found.user = Some(string_of(line, f, g));
    } else if range_folds_to(line, a, e, &w_identity) {
        let s = string_of(line, f, g);
        let ghost before = found.identity_files@;
        found.identity_files.push(s);
        assert(found.identity_files@.map_values(|x: String| x@) =~= before.map_values(
            |x: String| x@,
        ).push(val));
    }
}

/// Reads an OpenSSH client configuration text and returns what it says
/// about `host`: the values of HostName, Port, User and IdentityFile lines
/// that stand under a Host line with a pattern matching `host`. A later
/// HostName, Port or User overrides an earlier one; IdentityFile values
/// accumulate; a Port that is not a valid `u16` unsets the port.
pub fn resolve_config(text: &str, host: &str) -> (r: ResolvedHost)
    ensures
        r@ == resolve_spec(text@, host@),
{
    let v = chars_of(text);
    let h = chars_of(host);
    let mut applies = false;
    let mut found = ResolvedHost {
        hostname: None,
        port: None,
        user: None,
        identity_files: Vec::new(),
    };
    assert(found@.identity_files =~= Seq::<Seq<char>>::empty());
    let n = v.len();
    let mut start: usize = 0;
    let mut i: usize = 0;
    assert(v@.take(0) =~= Seq::<char>::empty());
    while i < n
        invariant
            n == v@.len(),
            start <= i <= n,
            pieces(v@.take(i as int), Separator::Newline).len() >= 1,
            pieces(v@.take(i as int), Separator::Newline).last() == v@.subrange(
                start as int,
                i as int,
            ),
            read_lines(pieces(v@.take(i as int), Separator::Newline).drop_last(), h@) == (
            ReaderState { applies: applies, found: found@ }),
        decreases n - i,
    {
        let ghost p = pieces(v@.take(i as int), Separator::Newline);
        proof {
            lemma_pieces_step(v@, i as int, Separator::Newline);
        }
        if v[i] == '\n' {
            let line = sub_vec(&v, start, i);
            read_line_exec(&line, &h, &mut applies, &mut found);
            proof {
                let q = p.push(Seq::<char>::empty());
                assert(q.drop_last() =~= p);
                assert(p =~= p.drop_last().push(p.last()));
            }
            start = i + 1;
            assert(v@.subrange(start as int, i + 1) =~= Seq::<char>::empty());
        } else {
            proof {
                let q = p.update(p.len() - 1, p.last().push(v@[i as int]));
                assert(q.drop_last() =~= p.drop_last());
            }
            assert(v@.subrange(start as int, i + 1) =~= v@.subrange(start as int, i as int).push(
                v@[i as int],
            ));
        }
        i = i + 1;
    }
    assert(v@.take(n as int) =~= v@);
    let line = sub_vec(&v, start, n);
    read_line_exec(&line, &h, &mut applies, &mut found);
    proof {
        let p = pieces(v@, Separator::Newline);
        assert(p =~= p.drop_last().push(p.last()));
    }
    found
}

} // verus!
