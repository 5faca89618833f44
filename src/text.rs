use vstd::prelude::*;
use vstd::string::*;
use vstd::utf8::{decode_utf8, valid_utf8};

verus! {

/// `c` equals the lower-case ASCII letter or symbol `l`, where an upper-case
/// ASCII letter matches its lower-case form.
pub open spec fn char_eq_ignore_case(c: char, l: char) -> bool {
    c == l || ('A' <= c && c <= 'Z' && c as u32 + 32 == l as u32)
}

/// `s` equals the lower-case token `lit` up to ASCII case.
pub open spec fn eq_ignore_case(s: Seq<char>, lit: Seq<char>) -> bool {
    s.len() == lit.len() && forall|i: int| 0 <= i < s.len() ==> char_eq_ignore_case(s[i], lit[i])
}

/// The characters of the text, in order.
pub(crate) fn chars_of(s: &str) -> (r: Vec<char>)
    ensures
        r@ == s@,
{
    let mut r: Vec<char> = Vec::new();
    for c in it: s.chars()
        invariant
            it.seq() == s@,
            r@ == it.seq().take(it.index() as int),
    {
        assert(it.seq().take(it.index() + 1) =~= r@.push(c));
        r.push(c);
    }
    assert(r@ =~= s@);
    r
}

/// Compares characters with a lower-case token, ignoring ASCII case.
pub(crate) fn matches_ignore_case(s: &Vec<char>, lit: &str) -> (r: bool)
    ensures
        r == eq_ignore_case(s@, lit@),
{
    let n = lit.unicode_len();
    if s.len() != n {
        return false;
    }
    let mut i: usize = 0;
    while i < n
        invariant
            n == s@.len() == lit@.len(),
            i <= n,
            forall|j: int| 0 <= j < i ==> char_eq_ignore_case(s@[j], lit@[j]),
        decreases n - i,
    {
        let c = s[i];
        let l = lit.get_char(i);
        if !(c == l || ('A' <= c && c <= 'Z' && c as u32 + 32 == l as u32)) {
            return false;
        }
        i += 1;
    }
    true
}


/// Unicode `White_Space` characters, the ones `char::is_whitespace` accepts.
pub open spec fn is_white(c: char) -> bool {
    let u = c as u32;
    (0x09 <= u && u <= 0x0d) || u == 0x20 || u == 0x85 || u == 0xa0 || u == 0x1680
        || (0x2000 <= u && u <= 0x200a) || u == 0x2028 || u == 0x2029 || u == 0x202f
        || u == 0x205f || u == 0x3000
}

/// Index of the first `c` in `s` at or after `i`.
pub open spec fn find_from(s: Seq<char>, c: char, i: int) -> Option<int>
    decreases s.len() - i,
{
    if i < 0 || i >= s.len() {
        None
    } else if s[i] == c {
        Some(i)
    } else {
        find_from(s, c, i + 1)
    }
}

/// Index of the first `c` in `s`.
pub open spec fn find_char(s: Seq<char>, c: char) -> Option<int> {
    find_from(s, c, 0)
}

/// The pieces of `s` between occurrences of `c`, where the current piece
/// began at `start` and the scan stands at `i`.
pub open spec fn split_from(s: Seq<char>, c: char, start: int, i: int) -> Seq<Seq<char>>
    decreases s.len() - i,
{
    if i < start || start < 0 || i >= s.len() {
        seq![s.subrange(start, s.len() as int)]
    } else if s[i] == c {
        seq![s.subrange(start, i)] + split_from(s, c, i + 1, i + 1)
    } else {
        split_from(s, c, start, i + 1)
    }
}

/// `s` cut at every `c`: one more piece than there are separators.
pub open spec fn split_on(s: Seq<char>, c: char) -> Seq<Seq<char>> {
    split_from(s, c, 0, 0)
}

/// `s` without one trailing carriage return.
pub open spec fn strip_cr(s: Seq<char>) -> Seq<char> {
    if s.len() > 0 && s.last() == '\r' {
        s.drop_last()
    } else {
        s
    }
}

/// The lines of `s` from `start`, scanning at `i`: ended by `\n` (with a
/// `\r` before it removed) or by the end of the text, where an empty last
/// line is no line.
pub open spec fn lines_from(s: Seq<char>, start: int, i: int) -> Seq<Seq<char>>
    decreases s.len() - i,
{
    if i < start || start < 0 || i >= s.len() {
        if 0 <= start < s.len() {
            seq![s.subrange(start, s.len() as int)]
        } else {
            seq![]
        }
    } else if s[i] == '\n' {
        seq![strip_cr(s.subrange(start, i))] + lines_from(s, i + 1, i + 1)
    } else {
        lines_from(s, start, i + 1)
    }
}

/// The lines of `s`.
pub open spec fn lines(s: Seq<char>) -> Seq<Seq<char>> {
    lines_from(s, 0, 0)
}

/// First index at or after `i` that holds no white space.
pub open spec fn skip_white(s: Seq<char>, i: int) -> int
    decreases s.len() - i,
{
    if 0 <= i < s.len() && is_white(s[i]) {
        skip_white(s, i + 1)
    } else {
        i
    }
}

/// End of `s.subrange(lo, j)` once trailing `/` characters (with `slash`)
/// or white space (without) are removed.
pub open spec fn back_while(s: Seq<char>, lo: int, j: int, slash: bool) -> int
    decreases j - lo,
{
    if lo < j && j <= s.len() && (if slash { s[j - 1] == '/' } else { is_white(s[j - 1]) }) {
        back_while(s, lo, j - 1, slash)
    } else {
        j
    }
}

/// `s` without leading and trailing white space.
pub open spec fn trim(s: Seq<char>) -> Seq<char> {
    let a = skip_white(s, 0);
    s.subrange(a, back_while(s, a, s.len() as int, false))
}

/// `s` without trailing `/` characters.
pub open spec fn trim_end_slashes(s: Seq<char>) -> Seq<char> {
    s.subrange(0, back_while(s, 0, s.len() as int, true))
}

/// Index of the first CRLF CRLF in `s` at or after `i`.
pub open spec fn blank_line_from(s: Seq<char>, i: int) -> Option<int>
    decreases s.len() - i,
{
    if i < 0 || i + 4 > s.len() {
        None
    } else if s[i] == '\r' && s[i + 1] == '\n' && s[i + 2] == '\r' && s[i + 3] == '\n' {
        Some(i)
    } else {
        blank_line_from(s, i + 1)
    }
}

/// The vectors hold, one for one, the character sequences of `t`.
pub open spec fn views_are(v: Seq<Vec<char>>, t: Seq<Seq<char>>) -> bool {
    v.len() == t.len() && forall|i: int| 0 <= i < v.len() ==> #[trigger] v[i]@ == t[i]
}

/// What `str::to_lowercase` makes of a text.
pub uninterp spec fn lower_of(s: Seq<char>) -> Seq<char>;

/// Relies on `std::str::from_utf8`: the text that the bytes encode, if
/// they are valid UTF-8.
#[verifier::external_body]
pub(crate) fn text_of(b: &[u8]) -> (r: Option<&str>)
    ensures
        r is Some <==> valid_utf8(b@),
        r is Some ==> r->0@ == decode_utf8(b@),
{
    std::str::from_utf8(b).ok()
}

/// Relies on `String::from_iter` over characters: the text made of them.
#[verifier::external_body]
pub(crate) fn string_of(v: &[char]) -> (r: String)
    ensures
        r@ == v@,
{
    String::from_iter(v)
}

/// Relies on `str::to_lowercase`: the lower-case form of the text.
#[verifier::external_body]
pub(crate) fn lowercase(s: &str) -> (r: String)
    ensures
        r@ == lower_of(s@),
{
    s.to_lowercase()
}

/// Copies `s[lo..hi]`.
pub(crate) fn copy_range(s: &Vec<char>, lo: usize, hi: usize) -> (r: Vec<char>)
    requires
        lo <= hi <= s@.len(),
    ensures
        r@ == s@.subrange(lo as int, hi as int),
{
    let mut r: Vec<char> = Vec::new();
    let mut i: usize = lo;
    while i < hi
        invariant
            lo <= i <= hi <= s@.len(),
            r@ == s@.subrange(lo as int, i as int),
        decreases hi - i,
    {
        r.push(s[i]);
        i += 1;
        assert(r@ =~= s@.subrange(lo as int, i as int));
    }
    r
}

/// Index of the first `c` in `s`.
pub(crate) fn index_of(s: &Vec<char>, c: char) -> (r: Option<usize>)
    ensures
        match r {
            Some(i) => find_char(s@, c) == Some(i as int) && i < s@.len() && s@[i as int] == c,
            None => find_char(s@, c) is None,
        },
{
    let mut i: usize = 0;
    while i < s.len()
        invariant
            i <= s@.len(),
            find_from(s@, c, 0) == find_from(s@, c, i as int),
        decreases s@.len() - i,
    {
        if s[i] == c {
            return Some(i);
        }
        i += 1;
    }
    None
}

/// Index of the first CRLF CRLF in `s`.
pub(crate) fn index_of_blank_line(s: &Vec<char>) -> (r: Option<usize>)
    ensures
        match r {
            Some(i) => blank_line_from(s@, 0) == Some(i as int) && i + 4 <= s@.len(),
            None => blank_line_from(s@, 0) is None,
        },
{
    let mut i: usize = 0;
    while i < s.len() && s.len() - i >= 4
        invariant
            i <= s@.len(),
            blank_line_from(s@, 0) == blank_line_from(s@, i as int),
        decreases s@.len() - i,
    {
        if s[i] == '\r' && s[i + 1] == '\n' && s[i + 2] == '\r' && s[i + 3] == '\n' {
            return Some(i);
        }
        i += 1;
    }
    None
}

/// `s` cut at every `c`.
pub(crate) fn split_chars(s: &Vec<char>, c: char) -> (r: Vec<Vec<char>>)
    ensures
        views_are(r@, split_on(s@, c)),
{
    let mut r: Vec<Vec<char>> = Vec::new();
    let ghost mut done: Seq<Seq<char>> = seq![];
    let mut start: usize = 0;
    let mut i: usize = 0;
    while i < s.len()
        invariant
            start <= i <= s@.len(),
            views_are(r@, done),
            split_on(s@, c) == done + split_from(s@, c, start as int, i as int),
        decreases s@.len() - i,
    {
        if s[i] == c {
            let piece = copy_range(s, start, i);
            proof {
                assert(split_from(s@, c, start as int, i as int) == seq![piece@] + split_from(
                    s@,
                    c,
                    i + 1,
                    i + 1,
                ));
                assert(done + seq![piece@] + split_from(s@, c, i + 1, i + 1) == done
                    + split_from(s@, c, start as int, i as int));
                done = done.push(piece@);
                assert(done == done.drop_last() + seq![piece@]);
            }
            r.push(piece);
            start = i + 1;
        }
        i += 1;
    }
    let piece = copy_range(s, start, s.len());
    proof {
        assert(split_from(s@, c, start as int, i as int) == seq![piece@]);
        done = done.push(piece@);
        assert(done =~= done.drop_last() + seq![piece@]);
    }
    r.push(piece);
    r
}

/// The lines of `s`.
pub(crate) fn split_lines(s: &Vec<char>) -> (r: Vec<Vec<char>>)
    ensures
        views_are(r@, lines(s@)),
{
    let mut r: Vec<Vec<char>> = Vec::new();
    let ghost mut done: Seq<Seq<char>> = seq![];
    let mut start: usize = 0;
    let mut i: usize = 0;
    while i < s.len()
        invariant
            start <= i <= s@.len(),
            views_are(r@, done),
            lines(s@) == done + lines_from(s@, start as int, i as int),
        decreases s@.len() - i,
    {
        if s[i] == '\n' {
            let mut end = i;
            if end > start && s[end - 1] == '\r' {
                end = end - 1;
            }
            let piece = copy_range(s, start, end);
            proof {
                assert(piece@ =~= strip_cr(s@.subrange(start as int, i as int)));
                assert(lines_from(s@, start as int, i as int) == seq![piece@] + lines_from(
                    s@,
                    i + 1,
                    i + 1,
                ));
                assert(done + seq![piece@] + lines_from(s@, i + 1, i + 1) == done + lines_from(
                    s@,
                    start as int,
                    i as int,
                ));
                done = done.push(piece@);
                assert(done == done.drop_last() + seq![piece@]);
            }
            r.push(piece);
            start = i + 1;
        }
        i += 1;
    }
    if start < s.len() {
        let piece = copy_range(s, start, s.len());
        proof {
            assert(lines_from(s@, start as int, i as int) == seq![piece@]);
            done = done.push(piece@);
            assert(done =~= done.drop_last() + seq![piece@]);
        }
        r.push(piece);
    } else {
        assert(done =~= done + lines_from(s@, start as int, i as int));
    }
    r
}

/// Is `c` white space in the sense of `is_white`.
fn white(c: char) -> (r: bool)
    ensures
        r == is_white(c),
{
    let u = c as u32;
    (0x09 <= u && u <= 0x0d) || u == 0x20 || u == 0x85 || u == 0xa0 || u == 0x1680 || (0x2000
        <= u && u <= 0x200a) || u == 0x2028 || u == 0x2029 || u == 0x202f || u == 0x205f || u
        == 0x3000
}

/// Is `c` a `/` (with `slash`) or white space (without).
fn trailing(c: char, slash: bool) -> (r: bool)
    ensures
        r == (if slash {
            c == '/'
        } else {
            is_white(c)
        }),
{
    if slash {
        c == '/'
    } else {
        white(c)
    }
}

/// End of `s[lo..hi]` with trailing white space (or, with `slash`,
/// trailing `/`) removed.
fn back_end(s: &Vec<char>, lo: usize, hi: usize, slash: bool) -> (r: usize)
    requires
        lo <= hi <= s@.len(),
    ensures
        r as int == back_while(s@, lo as int, hi as int, slash),
        lo <= r <= hi,
{
    let mut j = hi;
    while j > lo && trailing(s[j - 1], slash)
        invariant
            lo <= j <= hi <= s@.len(),
            back_while(s@, lo as int, hi as int, slash) == back_while(s@, lo as int, j as int, slash),
        decreases j,
    {
        j -= 1;
    }
    j
}

/// `s` without leading and trailing white space.
pub(crate) fn trim_chars(s: &Vec<char>) -> (r: Vec<char>)
    ensures
        r@ == trim(s@),
{
    let mut a: usize = 0;
    while a < s.len() && white(s[a])
        invariant
            a <= s@.len(),
            skip_white(s@, 0) == skip_white(s@, a as int),
        decreases s@.len() - a,
    {
        a += 1;
    }
    let b = back_end(s, a, s.len(), false);
    copy_range(s, a, b)
}

/// `s` without trailing `/` characters.
pub(crate) fn trim_slashes(s: &Vec<char>) -> (r: Vec<char>)
    ensures
        r@ == trim_end_slashes(s@),
{
    let b = back_end(s, 0, s.len(), true);
    copy_range(s, 0, b)
}

/// The decimal digit character of `d`.
pub open spec fn digit_char(d: int) -> char {
    seq!['0', '1', '2', '3', '4', '5', '6', '7', '8', '9'][d]
}

/// Decimal notation of `n`, without leading zeros.
pub open spec fn decimal(n: nat) -> Seq<char>
    decreases n,
{
    if n < 10 {
        seq![digit_char(n as int)]
    } else {
        decimal(n / 10).push(digit_char((n % 10) as int))
    }
}

/// Is `c` an ASCII decimal digit.
pub open spec fn is_digit(c: char) -> bool {
    '0' <= c && c <= '9'
}

/// Every character of `t` is a decimal digit.
pub open spec fn all_digits(t: Seq<char>) -> bool {
    forall|i: int| 0 <= i < t.len() ==> is_digit(#[trigger] t[i])
}

/// The number that the decimal digits `s` write.
pub open spec fn digits_value(s: Seq<char>) -> nat
    decreases s.len(),
{
    if s.len() == 0 {
        0
    } else {
        digits_value(s.drop_last()) * 10 + (s.last() as u32 - '0' as u32) as nat
    }
}

/// `s` without one leading `+`.
pub open spec fn unsigned_digits(s: Seq<char>) -> Seq<char> {
    if s.len() > 0 && s[0] == '+' {
        s.drop_first()
    } else {
        s
    }
}

/// The `usize` that `s` writes in decimal, with an optional leading `+`;
/// none where `s` is empty, holds another character or writes a number
/// that does not fit.
pub open spec fn parse_usize(s: Seq<char>) -> Option<nat> {
    let t = unsigned_digits(s);
    if t.len() > 0 && all_digits(t) && digits_value(t) <= usize::MAX {
        Some(digits_value(t))
    } else {
        None
    }
}

/// Writes `n` in decimal.
pub(crate) fn decimal_chars(n: usize) -> (r: Vec<char>)
    ensures
        r@ == decimal(n as nat),
{
    let digits: [char; 10] = ['0', '1', '2', '3', '4', '5', '6', '7', '8', '9'];
    assert(digits@ == seq!['0', '1', '2', '3', '4', '5', '6', '7', '8', '9']);
    let mut m = n;
    let mut r: Vec<char> = Vec::new();
    while m >= 10
        invariant
            decimal(n as nat) == decimal(m as nat) + r@,
            digits@ == seq!['0', '1', '2', '3', '4', '5', '6', '7', '8', '9'],
        decreases m,
    {
        let d = digits[m % 10];
        proof {
            assert(decimal(m as nat) == decimal((m / 10) as nat).push(d));
            assert(decimal(m as nat) + r@ =~= decimal((m / 10) as nat) + seq![d].add(r@));
        }
        r.insert(0, d);
        assert(r@ =~= seq![d].add(r@.drop_first()));
        m = m / 10;
    }
    let d = digits[m];
    r.insert(0, d);
    assert(decimal(n as nat) =~= r@);
    r
}

proof fn lemma_digits_value_grows(t: Seq<char>, i: int, j: int)
    requires
        0 <= i <= j <= t.len(),
        forall|k: int| 0 <= k < t.len() ==> is_digit(#[trigger] t[k]),
    ensures
        digits_value(t.take(i)) <= digits_value(t.take(j)),
    decreases j - i,
{
    if i < j {
        lemma_digits_value_grows(t, i, j - 1);
        assert(t.take(j).drop_last() =~= t.take(j - 1));
        assert(is_digit(t[j - 1]));
    }
}

/// Reads a `usize` written in decimal, as `str::parse` does.
pub(crate) fn parse_usize_chars(s: &Vec<char>) -> (r: Option<usize>)
    ensures
        match r {
            Some(n) => parse_usize(s@) == Some(n as nat),
            None => parse_usize(s@) is None,
        },
{
    let ghost t = unsigned_digits(s@);
    let start: usize = if s.len() > 0 && s[0] == '+' {
        1
    } else {
        0
    };
    assert(t =~= s@.subrange(start as int, s@.len() as int));
    if start >= s.len() {
        return None;
    }
    let mut acc: usize = 0;
    let mut i: usize = start;
    while i < s.len()
        invariant
            start <= i <= s@.len(),
            t == s@.subrange(start as int, s@.len() as int),
            t == unsigned_digits(s@),
            forall|k: int| 0 <= k < i - start ==> is_digit(#[trigger] t[k]),
            acc as nat == digits_value(t.take(i - start)),
        decreases s@.len() - i,
    {
        let c = s[i];
        if !('0' <= c && c <= '9') {
            assert(!is_digit(t[i - start]));
            return None;
        }
        let d = (c as u32 - '0' as u32) as usize;
        proof {
            let p = t.take(i - start + 1);
            assert(p.drop_last() =~= t.take(i - start));
            assert(p.last() == c);
        }
        let next = match acc.checked_mul(10) {
            Some(a) => a.checked_add(d),
            None => None,
        };
        match next {
            Some(b) => {
                acc = b;
            },
            None => {
                proof {
                    if forall|k: int| 0 <= k < t.len() ==> is_digit(#[trigger] t[k]) {
                        lemma_digits_value_grows(t, i - start + 1, t.len() as int);
                        assert(t.take(t.len() as int) =~= t);
                    }
                }
                return None;
            },
        }
        i += 1;
    }
    assert(t.take(t.len() as int) =~= t);
    Some(acc)
}

} // verus!
