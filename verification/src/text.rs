//! Character-level text utilities: the verified ground layer that the
//! parser, the substitution engine and the message builders share.
//!
//! Text is handled as `Vec<char>` with `Seq<char>` as its mathematical
//! model; owned `String` values are materialised only at the edges.

use vstd::prelude::*;

verus! {

/// Whitespace as the line classifier understands it: the ASCII blank
/// characters that can appear around tokens in a task definition file.
pub open spec fn is_space_char(c: char) -> bool {
    c == ' ' || c == '\t' || c == '\r' || c == '\n' || c == '\u{b}' || c == '\u{c}'
}

/// Identifier characters for variable names: ASCII letters, digits and
/// underscore.
pub open spec fn is_word_char(c: char) -> bool {
    ('a' <= c && c <= 'z') || ('A' <= c && c <= 'Z') || ('0' <= c && c <= '9') || c == '_'
}

/// Executable test mirroring `is_space_char`.
pub fn space_char(c: char) -> (r: bool)
    ensures
        r == is_space_char(c),
{
    c == ' ' || c == '\t' || c == '\r' || c == '\n' || c == '\u{b}' || c == '\u{c}'
}

/// Executable test mirroring `is_word_char`.
pub fn word_char(c: char) -> (r: bool)
    ensures
        r == is_word_char(c),
{
    ('a' <= c && c <= 'z') || ('A' <= c && c <= 'Z') || ('0' <= c && c <= '9') || c == '_'
}

/// Relies on `String::push`: appends the given character to the end of
/// the string.
#[verifier::external_body]
pub fn push_char(s: &mut String, c: char)
    ensures
        final(s)@ == old(s)@.push(c),
{
    s.push(c);
}

/// Copies the characters of a string slice into a vector.
pub fn str_to_chars(s: &str) -> (v: Vec<char>)
    ensures
        v@ == s@,
{
    let n = s.unicode_len();
    let mut v: Vec<char> = Vec::new();
    let mut i: usize = 0;
    while i < n
        invariant
            i <= n,
            n == s@.len(),
            v@ == s@.subrange(0, i as int),
        decreases n - i,
    {
        let c = s.get_char(i);
        v.push(c);
        i = i + 1;
        proof {
            assert(v@ =~= s@.subrange(0, i as int));
        }
    }
    proof {
        assert(v@ =~= s@);
    }
    v
}

/// Builds an owned string from a range of a character vector.
pub fn chars_range_to_string(v: &Vec<char>, from: usize, to: usize) -> (s: String)
    requires
        from <= to <= v@.len(),
    ensures
        s@ == v@.subrange(from as int, to as int),
{
    let mut s = String::new();
    let mut i: usize = from;
    while i < to
        invariant
            from <= i <= to <= v@.len(),
            s@ == v@.subrange(from as int, i as int),
        decreases to - i,
    {
        push_char(&mut s, v[i]);
        i = i + 1;
        proof {
            assert(s@ =~= v@.subrange(from as int, i as int));
        }
    }
    s
}

/// Builds an owned string from a whole character vector.
pub fn chars_to_string(v: &Vec<char>) -> (s: String)
    ensures
        s@ == v@,
{
    let s = chars_range_to_string(v, 0, v.len());
    proof {
        assert(v@.subrange(0, v@.len() as int) =~= v@);
    }
    s
}

/// Copies a range of a character vector into a fresh vector.
pub fn copy_range(v: &Vec<char>, from: usize, to: usize) -> (out: Vec<char>)
    requires
        from <= to <= v@.len(),
    ensures
        out@ == v@.subrange(from as int, to as int),
{
    let mut out: Vec<char> = Vec::new();
    let mut i: usize = from;
    while i < to
        invariant
            from <= i <= to <= v@.len(),
            out@ == v@.subrange(from as int, i as int),
        decreases to - i,
    {
        out.push(v[i]);
        i = i + 1;
        proof {
            assert(out@ =~= v@.subrange(from as int, i as int));
        }
    }
    out
}

/// Index just past the leading run of whitespace.
pub open spec fn spec_trim_from(s: Seq<char>) -> int
    decreases s.len(),
{
    if s.len() == 0 {
        0
    } else if is_space_char(s[0]) {
        1 + spec_trim_from(s.skip(1))
    } else {
        0
    }
}

/// Index just past the last non-whitespace character (0 when the text is
/// all whitespace).
pub open spec fn spec_trim_to(s: Seq<char>) -> int
    decreases s.len(),
{
    if s.len() == 0 {
        0
    } else if is_space_char(s[s.len() - 1]) {
        spec_trim_to(s.drop_last())
    } else {
        s.len() as int
    }
}

/// The text with leading and trailing whitespace removed.
pub open spec fn spec_trim(s: Seq<char>) -> Seq<char> {
    if spec_trim_from(s) <= spec_trim_to(s) {
        s.subrange(spec_trim_from(s), spec_trim_to(s))
    } else {
        Seq::empty()
    }
}

pub proof fn lemma_trim_from_bounds(s: Seq<char>)
    ensures
        0 <= spec_trim_from(s) <= s.len(),
        forall|j: int| 0 <= j < spec_trim_from(s) ==> is_space_char(s[j]),
        spec_trim_from(s) < s.len() ==> !is_space_char(s[spec_trim_from(s)]),
    decreases s.len(),
{
    if s.len() > 0 && is_space_char(s[0]) {
        lemma_trim_from_bounds(s.skip(1));
        assert forall|j: int| 0 <= j < spec_trim_from(s) implies is_space_char(s[j]) by {
            if j > 0 {
                assert(s[j] == s.skip(1)[j - 1]);
            }
        }
        if spec_trim_from(s) < s.len() {
            assert(s[spec_trim_from(s)] == s.skip(1)[spec_trim_from(s) - 1]);
        }
    }
}

pub proof fn lemma_trim_to_bounds(s: Seq<char>)
    ensures
        0 <= spec_trim_to(s) <= s.len(),
        forall|j: int| spec_trim_to(s) <= j < s.len() ==> is_space_char(s[j]),
        spec_trim_to(s) > 0 ==> !is_space_char(s[spec_trim_to(s) - 1]),
    decreases s.len(),
{
    if s.len() > 0 && is_space_char(s[s.len() - 1]) {
        lemma_trim_to_bounds(s.drop_last());
        assert forall|j: int| spec_trim_to(s) <= j < s.len() implies is_space_char(s[j]) by {
            if j < s.len() - 1 {
                assert(s[j] == s.drop_last()[j]);
            }
        }
        if spec_trim_to(s) > 0 {
            assert(s[spec_trim_to(s) - 1] == s.drop_last()[spec_trim_to(s) - 1]);
        }
    }
}

/// An all-whitespace text trims to the empty sequence.
pub proof fn lemma_trim_all_space(s: Seq<char>)
    requires
        forall|j: int| 0 <= j < s.len() ==> is_space_char(s[j]),
    ensures
        spec_trim(s).len() == 0,
{
    lemma_trim_from_bounds(s);
    lemma_trim_to_bounds(s);
    if spec_trim_from(s) < s.len() {
        assert(is_space_char(s[spec_trim_from(s)]));
        assert(false);
    }
    if spec_trim_to(s) > 0 {
        assert(is_space_char(s[spec_trim_to(s) - 1]));
        assert(false);
    }
    if spec_trim_from(s) <= spec_trim_to(s) {
        assert(s.len() == 0);
    }
}

/// Computes the trim bounds of a range of a character vector, relative to
/// the whole vector: the returned range carries exactly the trimmed text.
pub fn trim_bounds(v: &Vec<char>, from: usize, to: usize) -> (r: (usize, usize))
    requires
        from <= to <= v@.len(),
    ensures
        from <= r.0 <= r.1 <= to,
        v@.subrange(r.0 as int, r.1 as int) == spec_trim(
            v@.subrange(from as int, to as int),
        ),
{
    let ghost s = v@.subrange(from as int, to as int);
    let mut lo: usize = from;
    while lo < to && space_char(v[lo])
        invariant
            from <= lo <= to <= v@.len(),
            s == v@.subrange(from as int, to as int),
            forall|j: int| 0 <= j < lo - from ==> is_space_char(s[j]),
        decreases to - lo,
    {
        proof {
            assert(s[lo - from] == v@[lo as int]);
        }
        lo = lo + 1;
    }
    let mut hi: usize = to;
    while hi > lo && space_char(v[hi - 1])
        invariant
            from <= lo <= hi <= to <= v@.len(),
            s == v@.subrange(from as int, to as int),
            forall|j: int| 0 <= j < lo - from ==> is_space_char(s[j]),
            lo < to ==> !is_space_char(s[lo - from]),
            forall|j: int| hi - from <= j < s.len() ==> is_space_char(s[j]),
        decreases hi - lo,
    {
        proof {
            assert(s[hi - from - 1] == v@[hi - 1]);
        }
        hi = hi - 1;
    }
    proof {
        if lo == hi {
            assert(forall|j: int| 0 <= j < s.len() ==> is_space_char(s[j]));
            lemma_trim_all_space(s);
            assert(v@.subrange(lo as int, hi as int) =~= spec_trim(s));
        } else {
            assert(!is_space_char(s[lo - from]));
            assert(!is_space_char(s[hi - from - 1]));
            lemma_trim_from_bounds(s);
            lemma_trim_to_bounds(s);
            lemma_run_extends_from(s, lo - from);
            if spec_trim_from(s) > lo - from {
                assert(is_space_char(s[lo - from]));
            }
            assert(spec_trim_from(s) == lo - from);
            lemma_run_extends_to(s, hi - from);
            if spec_trim_to(s) < hi - from {
                assert(is_space_char(s[hi - from - 1]));
            }
            assert(spec_trim_to(s) == hi - from);
            assert(v@.subrange(lo as int, hi as int) =~= s.subrange(lo - from, hi - from));
        }
    }
    (lo, hi)
}

/// A run of leading whitespace of length `k` bounds `spec_trim_from` below.
proof fn lemma_run_extends_from(s: Seq<char>, k: int)
    requires
        0 <= k <= s.len(),
        forall|j: int| 0 <= j < k ==> is_space_char(s[j]),
    ensures
        spec_trim_from(s) >= k,
    decreases k,
{
    if k > 0 {
        assert(is_space_char(s[0]));
        assert forall|j: int| 0 <= j < k - 1 implies is_space_char(s.skip(1)[j]) by {
            assert(s.skip(1)[j] == s[j + 1]);
        }
        lemma_run_extends_from(s.skip(1), k - 1);
        assert(spec_trim_from(s) == 1 + spec_trim_from(s.skip(1)));
    } else {
        lemma_trim_from_bounds(s);
    }
}

/// A run of trailing whitespace from `k` on bounds `spec_trim_to` above.
proof fn lemma_run_extends_to(s: Seq<char>, k: int)
    requires
        0 <= k <= s.len(),
        forall|j: int| k <= j < s.len() ==> is_space_char(s[j]),
    ensures
        spec_trim_to(s) <= k,
    decreases s.len() - k,
{
    if k < s.len() {
        assert(is_space_char(s[s.len() - 1]));
        assert forall|j: int| k <= j < s.drop_last().len() implies is_space_char(
            s.drop_last()[j],
        ) by {
            assert(s.drop_last()[j] == s[j]);
        }
        lemma_run_extends_to(s.drop_last(), k);
        assert(spec_trim_to(s) == spec_trim_to(s.drop_last()));
    } else {
        lemma_trim_to_bounds(s);
    }
}

/// First occurrence of a character, if any.
pub open spec fn spec_find_char(s: Seq<char>, c: char) -> Option<int>
    decreases s.len(),
{
    if s.len() == 0 {
        None
    } else if s[0] == c {
        Some(0)
    } else {
        match spec_find_char(s.skip(1), c) {
            Some(i) => Some(i + 1),
            None => None,
        }
    }
}

pub proof fn lemma_find_char(s: Seq<char>, c: char)
    ensures
        match spec_find_char(s, c) {
            Some(i) => 0 <= i < s.len() && s[i] == c && forall|j: int| 0 <= j < i ==> s[j] != c,
            None => forall|j: int| 0 <= j < s.len() ==> s[j] != c,
        },
    decreases s.len(),
{
    if s.len() > 0 && s[0] != c {
        lemma_find_char(s.skip(1), c);
        match spec_find_char(s.skip(1), c) {
            Some(i) => {
                assert(s[i + 1] == s.skip(1)[i]);
                assert forall|j: int| 0 <= j < i + 1 implies s[j] != c by {
                    if j > 0 {
                        assert(s[j] == s.skip(1)[j - 1]);
                    }
                }
            },
            None => {
                assert forall|j: int| 0 <= j < s.len() implies s[j] != c by {
                    if j > 0 {
                        assert(s[j] == s.skip(1)[j - 1]);
                    }
                }
            },
        }
    }
}

/// Finds the first occurrence of `c` in `v`.
pub fn find_char(v: &Vec<char>, c: char) -> (r: Option<usize>)
    ensures
        r == match spec_find_char(v@, c) {
            Some(i) => Some(i as usize),
            None => None::<usize>,
        },
{
    let mut i: usize = 0;
    while i < v.len()
        invariant
            0 <= i <= v@.len(),
            forall|j: int| 0 <= j < i ==> v@[j] != c,
        decreases v@.len() - i,
    {
        if v[i] == c {
            proof {
                lemma_find_char(v@, c);
                match spec_find_char(v@, c) {
                    Some(k) => {
                        if k < i {
                            assert(v@[k] != c);
                        }
                        if k > i {
                            assert(v@[i as int] != c);
                        }
                    },
                    None => {
                        assert(v@[i as int] != c);
                    },
                }
            }
            return Some(i);
        }
        i = i + 1;
    }
    proof {
        lemma_find_char(v@, c);
        match spec_find_char(v@, c) {
            Some(k) => {
                assert(v@[k] != c);
            },
            None => {},
        }
    }
    None
}

/// Equality of two string slices.
pub fn str_eq(a: &str, b: &str) -> (r: bool)
    ensures
        r == (a@ == b@),
{
    let n = a.unicode_len();
    if n != b.unicode_len() {
        return false;
    }
    let mut i: usize = 0;
    while i < n
        invariant
            0 <= i <= n,
            n == a@.len() == b@.len(),
            forall|j: int| 0 <= j < i ==> a@[j] == b@[j],
        decreases n - i,
    {
        if a.get_char(i) != b.get_char(i) {
            return false;
        }
        i = i + 1;
    }
    proof {
        assert(a@ =~= b@);
    }
    true
}

/// Decimal digits of a natural number, most significant first.
pub open spec fn spec_dec(n: nat) -> Seq<char>
    decreases n,
{
    if n < 10 {
        seq![spec_digit_char(n)]
    } else {
        spec_dec(n / 10).push(spec_digit_char(n % 10))
    }
}

pub open spec fn spec_digit_char(d: nat) -> char {
    if d == 0 {
        '0'
    } else if d == 1 {
        '1'
    } else if d == 2 {
        '2'
    } else if d == 3 {
        '3'
    } else if d == 4 {
        '4'
    } else if d == 5 {
        '5'
    } else if d == 6 {
        '6'
    } else if d == 7 {
        '7'
    } else if d == 8 {
        '8'
    } else {
        '9'
    }
}

fn digit_char(d: usize) -> (c: char)
    requires
        d < 10,
    ensures
        c == spec_digit_char(d as nat),
{
    if d == 0 {
        '0'
    } else if d == 1 {
        '1'
    } else if d == 2 {
        '2'
    } else if d == 3 {
        '3'
    } else if d == 4 {
        '4'
    } else if d == 5 {
        '5'
    } else if d == 6 {
        '6'
    } else if d == 7 {
        '7'
    } else if d == 8 {
        '8'
    } else {
        '9'
    }
}

/// Renders a number in decimal.
pub fn usize_to_dec(n: usize) -> (s: String)
    ensures
        s@ == spec_dec(n as nat),
    decreases n,
{
    if n < 10 {
        let mut s = String::new();
        push_char(&mut s, digit_char(n));
        proof {
            assert(s@ =~= spec_dec(n as nat));
        }
        s
    } else {
        let mut s = usize_to_dec(n / 10);
        push_char(&mut s, digit_char(n % 10));
        s
    }
}

/// Newline-joining of two pieces of captured output: when either side is
/// empty the other stands alone, otherwise they are separated by one
/// newline.
pub open spec fn spec_join(a: Seq<char>, b: Seq<char>) -> Seq<char> {
    if a.len() == 0 {
        b
    } else if b.len() == 0 {
        a
    } else {
        a + seq!['\n'] + b
    }
}

/// Appends `piece` to the accumulator under the newline-join rule.
pub fn append_joined(acc: &mut String, piece: &str)
    ensures
        final(acc)@ == spec_join(old(acc)@, piece@),
{
    if piece.unicode_len() == 0 {
        return;
    }
    if acc.as_str().unicode_len() != 0 {
        push_char(acc, '\n');
    }
    let n = piece.unicode_len();
    let mut i: usize = 0;
    while i < n
        invariant
            0 <= i <= n,
            n == piece@.len(),
            n > 0,
            acc@ == if old(acc)@.len() == 0 {
                piece@.subrange(0, i as int)
            } else {
                old(acc)@ + seq!['\n'] + piece@.subrange(0, i as int)
            },
        decreases n - i,
    {
        push_char(acc, piece.get_char(i));
        i = i + 1;
        proof {
            if old(acc)@.len() == 0 {
                assert(acc@ =~= piece@.subrange(0, i as int));
            } else {
                assert(acc@ =~= old(acc)@ + seq!['\n'] + piece@.subrange(0, i as int));
            }
        }
    }
    proof {
        assert(piece@.subrange(0, n as int) =~= piece@);
    }
}

/// Appends a range of a character vector to an owned string.
pub fn append_chars(s: &mut String, v: &Vec<char>, from: usize, to: usize)
    requires
        from <= to <= v@.len(),
    ensures
        final(s)@ == old(s)@ + v@.subrange(from as int, to as int),
{
    let mut i: usize = from;
    proof {
        assert(s@ =~= old(s)@ + v@.subrange(from as int, from as int));
    }
    while i < to
        invariant
            from <= i <= to <= v@.len(),
            s@ == old(s)@ + v@.subrange(from as int, i as int),
        decreases to - i,
    {
        push_char(s, v[i]);
        i = i + 1;
        proof {
            assert(s@ =~= old(s)@ + v@.subrange(from as int, i as int));
        }
    }
}

/// One physical line as the splitter hands it on: a `"\r\n"` ending loses
/// its carriage return, a bare trailing `'\r'` in the final segment stays.
pub open spec fn spec_line_fix(l: Seq<char>) -> Seq<char> {
    if l.len() > 0 && l[l.len() - 1] == '\r' {
        l.drop_last()
    } else {
        l
    }
}

/// Segments of the text split at `'\n'`, the accumulator holding the
/// segment under construction. Every segment closed by a newline is
/// passed through `spec_line_fix`; the final segment is kept as written.
pub open spec fn spec_split_nl_acc(s: Seq<char>, cur: Seq<char>) -> Seq<Seq<char>>
    decreases s.len(),
{
    if s.len() == 0 {
        seq![cur]
    } else if s[0] == '\n' {
        seq![spec_line_fix(cur)] + spec_split_nl_acc(s.skip(1), Seq::empty())
    } else {
        spec_split_nl_acc(s.skip(1), cur.push(s[0]))
    }
}

/// The physical lines of a text, as the host language's line iterator
/// yields them: split at `'\n'`, `"\r\n"` treated as one ending, and no
/// empty line after a final newline.
pub open spec fn spec_lines(s: Seq<char>) -> Seq<Seq<char>> {
    let segs = spec_split_nl_acc(s, Seq::empty());
    if segs[segs.len() - 1].len() == 0 {
        segs.drop_last()
    } else {
        segs
    }
}

pub proof fn lemma_split_nl_acc_len(s: Seq<char>, cur: Seq<char>)
    ensures
        spec_split_nl_acc(s, cur).len() >= 1,
    decreases s.len(),
{
    if s.len() > 0 {
        if s[0] == '\n' {
            lemma_split_nl_acc_len(s.skip(1), Seq::empty());
        } else {
            lemma_split_nl_acc_len(s.skip(1), cur.push(s[0]));
        }
    }
}

/// Splits a text into its physical lines.
pub fn split_lines(v: &Vec<char>) -> (lines: Vec<Vec<char>>)
    ensures
        lines.deep_view() == spec_lines(v@),
{
    let mut out: Vec<Vec<char>> = Vec::new();
    let mut cur: Vec<char> = Vec::new();
    let mut i: usize = 0;
    proof {
        assert(v@.skip(0) =~= v@);
        assert(out.deep_view() =~~= Seq::<Seq<char>>::empty());
        assert(out.deep_view() + spec_split_nl_acc(v@, Seq::empty()) =~= spec_split_nl_acc(
            v@,
            Seq::empty(),
        ));
    }
    while i < v.len()
        invariant
            0 <= i <= v@.len(),
            spec_split_nl_acc(v@, Seq::empty()) == out.deep_view() + spec_split_nl_acc(
                v@.skip(i as int),
                cur@,
            ),
        decreases v@.len() - i,
    {
        let ghost rest = v@.skip(i as int);
        let ghost out0 = out.deep_view();
        let ghost cur0 = cur@;
        proof {
            assert(rest[0] == v@[i as int]);
            assert(rest.skip(1) =~= v@.skip(i + 1));
        }
        if v[i] == '\n' {
            let fixed_len = if cur.len() > 0 && cur[cur.len() - 1] == '\r' {
                cur.len() - 1
            } else {
                cur.len()
            };
            let fixed = copy_range(&cur, 0, fixed_len);
            proof {
                if cur@.len() > 0 && cur@[cur@.len() - 1] == '\r' {
                    assert(fixed@ =~= cur@.drop_last());
                } else {
                    assert(fixed@ =~= cur@);
                }
                assert(fixed@ == spec_line_fix(cur@));
            }
            out.push(fixed);
            cur = Vec::new();
            proof {
                assert(out.deep_view() =~~= out0.push(spec_line_fix(cur0)));
                assert(spec_split_nl_acc(rest, cur0) == seq![spec_line_fix(cur0)]
                    + spec_split_nl_acc(rest.skip(1), Seq::empty()));
                assert(out0.push(spec_line_fix(cur0)) + spec_split_nl_acc(
                    rest.skip(1),
                    Seq::empty(),
                ) =~= out0 + spec_split_nl_acc(rest, cur0));
            }
        } else {
            let c = v[i];
            cur.push(c);
            proof {
                assert(spec_split_nl_acc(rest, cur0) == spec_split_nl_acc(
                    rest.skip(1),
                    cur0.push(rest[0]),
                ));
            }
        }
        i = i + 1;
    }
    proof {
        assert(v@.skip(v@.len() as int) =~= Seq::<char>::empty());
        assert(spec_split_nl_acc(Seq::empty(), cur@) == seq![cur@]);
    }
    let last_empty = cur.len() == 0;
    out.push(cur);
    proof {
        assert(out.deep_view() =~~= spec_split_nl_acc(v@, Seq::empty()));
    }
    if last_empty {
        let _ = out.pop();
        proof {
            let segs = spec_split_nl_acc(v@, Seq::empty());
            lemma_split_nl_acc_len(v@, Seq::empty());
            assert(out.deep_view() =~~= segs.drop_last());
        }
    }
    proof {
        lemma_split_nl_acc_len(v@, Seq::empty());
    }
    out
}

/// Whitespace-separated tokens, the accumulator holding the token under
/// construction.
pub open spec fn spec_split_ws_acc(s: Seq<char>, cur: Seq<char>) -> Seq<Seq<char>>
    decreases s.len(),
{
    if s.len() == 0 {
        if cur.len() == 0 {
            Seq::empty()
        } else {
            seq![cur]
        }
    } else if is_space_char(s[0]) {
        if cur.len() == 0 {
            spec_split_ws_acc(s.skip(1), Seq::empty())
        } else {
            seq![cur] + spec_split_ws_acc(s.skip(1), Seq::empty())
        }
    } else {
        spec_split_ws_acc(s.skip(1), cur.push(s[0]))
    }
}

/// The whitespace-separated tokens of a text.
pub open spec fn spec_split_ws(s: Seq<char>) -> Seq<Seq<char>> {
    spec_split_ws_acc(s, Seq::empty())
}

/// Splits a range of a character vector into whitespace-separated tokens.
pub fn split_ws_range(v: &Vec<char>, from: usize, to: usize) -> (tokens: Vec<Vec<char>>)
    requires
        from <= to <= v@.len(),
    ensures
        tokens.deep_view() == spec_split_ws(v@.subrange(from as int, to as int)),
{
    let ghost s = v@.subrange(from as int, to as int);
    let mut out: Vec<Vec<char>> = Vec::new();
    let mut cur: Vec<char> = Vec::new();
    let mut i: usize = from;
    proof {
        assert(s.skip(0) =~= s);
        assert(out.deep_view() =~~= Seq::<Seq<char>>::empty());
        assert(out.deep_view() + spec_split_ws_acc(s, Seq::empty()) =~= spec_split_ws_acc(
            s,
            Seq::empty(),
        ));
    }
    while i < to
        invariant
            from <= i <= to <= v@.len(),
            s == v@.subrange(from as int, to as int),
            spec_split_ws_acc(s, Seq::empty()) == out.deep_view() + spec_split_ws_acc(
                s.skip(i - from),
                cur@,
            ),
        decreases to - i,
    {
        let ghost rest = s.skip(i - from);
        let ghost out0 = out.deep_view();
        let ghost cur0 = cur@;
        proof {
            assert(rest[0] == v@[i as int]);
            assert(rest.skip(1) =~= s.skip(i + 1 - from));
        }
        if space_char(v[i]) {
            if cur.len() > 0 {
                out.push(cur);
                cur = Vec::new();
                proof {
                    assert(out.deep_view() =~~= out0.push(cur0));
                    assert(spec_split_ws_acc(rest, cur0) == seq![cur0] + spec_split_ws_acc(
                        rest.skip(1),
                        Seq::empty(),
                    ));
                    assert(out0.push(cur0) + spec_split_ws_acc(rest.skip(1), Seq::empty()) =~= out0
                        + spec_split_ws_acc(rest, cur0));
                }
            } else {
                proof {
                    assert(cur0 =~= Seq::<char>::empty());
                    assert(spec_split_ws_acc(rest, cur0) == spec_split_ws_acc(
                        rest.skip(1),
                        Seq::empty(),
                    ));
                }
            }
        } else {
            let c = v[i];
            cur.push(c);
            proof {
                assert(spec_split_ws_acc(rest, cur0) == spec_split_ws_acc(
                    rest.skip(1),
                    cur0.push(rest[0]),
                ));
            }
        }
        i = i + 1;
    }
    proof {
        assert(s.skip(to - from) =~= Seq::<char>::empty());
    }
    if cur.len() > 0 {
        out.push(cur);
    }
    proof {
        assert(out.deep_view() =~~= spec_split_ws_acc(s, Seq::empty()));
    }
    out
}

/// Appends the characters of a string slice to a character vector.
pub fn push_str_chars(out: &mut Vec<char>, s: &str)
    ensures
        final(out)@ == old(out)@ + s@,
{
    let n = s.unicode_len();
    let mut i: usize = 0;
    proof {
        assert(out@ =~= old(out)@ + s@.subrange(0, 0));
    }
    while i < n
        invariant
            0 <= i <= n,
            n == s@.len(),
            out@ == old(out)@ + s@.subrange(0, i as int),
        decreases n - i,
    {
        out.push(s.get_char(i));
        i = i + 1;
        proof {
            assert(out@ =~= old(out)@ + s@.subrange(0, i as int));
        }
    }
    proof {
        assert(s@.subrange(0, n as int) =~= s@);
    }
}

/// Appends a range of one character vector to another.
pub fn push_range(out: &mut Vec<char>, v: &Vec<char>, from: usize, to: usize)
    requires
        from <= to <= v@.len(),
    ensures
        final(out)@ == old(out)@ + v@.subrange(from as int, to as int),
{
    let mut i: usize = from;
    proof {
        assert(out@ =~= old(out)@ + v@.subrange(from as int, from as int));
    }
    while i < to
        invariant
            from <= i <= to <= v@.len(),
            out@ == old(out)@ + v@.subrange(from as int, i as int),
        decreases to - i,
    {
        out.push(v[i]);
        i = i + 1;
        proof {
            assert(out@ =~= old(out)@ + v@.subrange(from as int, i as int));
        }
    }
}

/// The character sequences of a sequence of strings.
pub open spec fn spec_str_views(s: Seq<String>) -> Seq<Seq<char>> {
    s.map_values(|x: String| x@)
}

/// The deep view of a vector of character vectors is its element views.
pub proof fn lemma_charvecs_deep_view(v: &Vec<Vec<char>>)
    ensures
        v.deep_view().len() == v@.len(),
        forall|i: int| 0 <= i < v@.len() ==> v.deep_view()[i] == v@[i]@,
{
    assert forall|i: int| 0 <= i < v@.len() implies v.deep_view()[i] == v@[i]@ by {
        assert(v@[i].deep_view() =~= v@[i]@);
    }
}

/// The deep view of a vector of strings is its element views.
pub proof fn lemma_strings_deep_view(v: &Vec<String>)
    ensures
        v.deep_view().len() == v@.len(),
        forall|i: int| 0 <= i < v@.len() ==> v.deep_view()[i] == v@[i]@,
{
}

} // verus!
