//! Text as sequences of characters: searching, splitting, replacing, joining,
//! trimming and decimal numbers. Every function here is stated over `Seq<char>`.

use vstd::prelude::*;
use vstd::string::*;

verus! {

/// `pat` occurs in `s` at position `i`.
pub open spec fn matches_at(s: Seq<char>, pat: Seq<char>, i: int) -> bool {
    0 <= i && i + pat.len() <= s.len() && s.subrange(i, i + pat.len()) == pat
}

/// The least position at or after `from` where `pat` occurs in `s`.
pub open spec fn first_match(s: Seq<char>, pat: Seq<char>, from: int) -> Option<int>
    decreases s.len() - from,
{
    if from < 0 || from + pat.len() > s.len() {
        None
    } else if matches_at(s, pat, from) || from >= s.len() {
        Some(from)
    } else {
        first_match(s, pat, from + 1)
    }
}

/// `pat` occurs somewhere in `s`.
pub open spec fn contains_sub(s: Seq<char>, pat: Seq<char>) -> bool {
    first_match(s, pat, 0) is Some
}

/// `s` begins with `pat`.
pub open spec fn starts_with(s: Seq<char>, pat: Seq<char>) -> bool {
    matches_at(s, pat, 0)
}

/// The pieces of `s`, read from position `from`, between the occurrences of a
/// non-empty `sep`, found left to right without overlap.
pub open spec fn split_from(s: Seq<char>, sep: Seq<char>, from: int) -> Seq<Seq<char>>
    decreases s.len() - from,
{
    match first_match(s, sep, from) {
        Some(i) if from <= i && i + sep.len() <= s.len() && sep.len() > 0 => seq![
            s.subrange(from, i),
        ] + split_from(s, sep, i + sep.len()),
        _ => seq![s.subrange(from, s.len() as int)],
    }
}

/// The pieces of `s` between the occurrences of a non-empty `sep`. With an empty
/// `sep` the only piece is `s`.
pub open spec fn split_on(s: Seq<char>, sep: Seq<char>) -> Seq<Seq<char>> {
    split_from(s, sep, 0)
}

/// `to` before every character of `s` and once more at the end.
pub open spec fn interleave(s: Seq<char>, to: Seq<char>) -> Seq<char>
    decreases s.len(),
{
    if s.len() == 0 {
        to
    } else {
        to + seq![s[0]] + interleave(s.drop_first(), to)
    }
}

/// `s`, read from position `pos`, with every occurrence of a non-empty `from`
/// replaced by `to`.
pub open spec fn replace_from(s: Seq<char>, from: Seq<char>, to: Seq<char>, pos: int) -> Seq<char>
    decreases s.len() - pos,
{
    match first_match(s, from, pos) {
        Some(i) if pos <= i && i + from.len() <= s.len() && from.len() > 0 => s.subrange(pos, i)
            + to + replace_from(s, from, to, i + from.len()),
        _ => s.subrange(pos, s.len() as int),
    }
}

/// `s` with every occurrence of `from`, found left to right without overlap,
/// replaced by `to`. An empty `from` occurs before every character and at the end.
pub open spec fn replace_all(s: Seq<char>, from: Seq<char>, to: Seq<char>) -> Seq<char> {
    if from.len() == 0 {
        interleave(s, to)
    } else {
        replace_from(s, from, to, 0)
    }
}

/// The parts written one after another with `sep` between neighbours.
pub open spec fn join(parts: Seq<Seq<char>>, sep: Seq<char>) -> Seq<char>
    decreases parts.len(),
{
    if parts.len() == 0 {
        Seq::empty()
    } else if parts.len() == 1 {
        parts[0]
    } else {
        join(parts.drop_last(), sep) + sep + parts.last()
    }
}

/// `s` without its leading run of `c`.
pub open spec fn trim_start_char(s: Seq<char>, c: char) -> Seq<char>
    decreases s.len(),
{
    if s.len() > 0 && s[0] == c {
        trim_start_char(s.drop_first(), c)
    } else {
        s
    }
}

/// `s` without its trailing run of `c`.
pub open spec fn trim_end_char(s: Seq<char>, c: char) -> Seq<char>
    decreases s.len(),
{
    if s.len() > 0 && s.last() == c {
        trim_end_char(s.drop_last(), c)
    } else {
        s
    }
}

/// `s` without the runs of `c` at both ends.
pub open spec fn trim_char(s: Seq<char>, c: char) -> Seq<char> {
    trim_end_char(trim_start_char(s, c), c)
}

/// The characters with the Unicode property White_Space.
pub open spec fn is_space(c: char) -> bool {
    let n = c as u32;
    (0x09 <= n <= 0x0d) || n == 0x20 || n == 0x85 || n == 0xa0 || n == 0x1680 || (0x2000 <= n
        <= 0x200a) || n == 0x2028 || n == 0x2029 || n == 0x202f || n == 0x205f || n == 0x3000
}

/// `s` without its leading white space.
pub open spec fn trim_start_space(s: Seq<char>) -> Seq<char>
    decreases s.len(),
{
    if s.len() > 0 && is_space(s[0]) {
        trim_start_space(s.drop_first())
    } else {
        s
    }
}

/// `s` without its trailing white space.
pub open spec fn trim_end_space(s: Seq<char>) -> Seq<char>
    decreases s.len(),
{
    if s.len() > 0 && is_space(s.last()) {
        trim_end_space(s.drop_last())
    } else {
        s
    }
}

/// `s` without white space at both ends.
pub open spec fn trim_space(s: Seq<char>) -> Seq<char> {
    trim_end_space(trim_start_space(s))
}

/// The character of one decimal digit.
pub open spec fn digit_char(d: nat) -> char
    recommends
        d < 10,
{
    (48 + d) as u8 as char
}

/// `c` is one of `0` to `9`.
pub open spec fn is_digit(c: char) -> bool {
    48 <= c as u32 <= 57
}

/// The value of a decimal digit.
pub open spec fn digit_value(c: char) -> nat {
    (c as u32 - 48) as nat
}

/// `n` in decimal, without leading zeros.
pub open spec fn decimal(n: nat) -> Seq<char>
    decreases n,
{
    if n < 10 {
        seq![digit_char(n)]
    } else {
        decimal(n / 10).push(digit_char(n % 10))
    }
}

/// Every character of `s` is a decimal digit.
pub open spec fn all_digits(s: Seq<char>) -> bool {
    forall|i: int| 0 <= i < s.len() ==> is_digit(#[trigger] s[i])
}

/// The number that a run of decimal digits writes; leading zeros count for nothing.
pub open spec fn decimal_value(s: Seq<char>) -> nat
    decreases s.len(),
{
    if s.len() == 0 {
        0
    } else {
        decimal_value(s.drop_last()) * 10 + digit_value(s.last())
    }
}

/// Collecting characters into a `String` (`FromIterator<&char>` of std) keeps
/// them all, in order.
#[verifier::external_body]
pub(crate) fn from_chars(v: &Vec<char>) -> (r: String)
    ensures
        r@ == v@,
{
    v.iter().collect()
}

/// What `{:?}` writes for a string: the text between double quotes, with the
/// escapes of `Debug` for `str`.
pub uninterp spec fn quoted(s: Seq<char>) -> Seq<char>;

/// `format!` with `{:?}` on a string.
#[verifier::external_body]
pub(crate) fn quote(s: &String) -> (r: String)
    ensures
        r@ == quoted(s@),
{
    format!("{:?}", s)
}

/// The characters of `s`, in order.
pub fn to_chars(s: &str) -> (r: Vec<char>)
    ensures
        r@ == s@,
{
    broadcast use vstd::string::group_string_axioms;

    let mut out: Vec<char> = Vec::new();
    for c in it: s.chars()
        invariant
            it.seq() == s@,
            out.len() == it.index(),
            forall|j: int| 0 <= j < out.len() ==> out@[j] == it.seq()[j],
    {
        out.push(c);
    }
    assert(out@ =~= s@);
    out
}

/// Whether `pat` occurs in `s` at position `i`.
pub fn check_at(s: &Vec<char>, pat: &Vec<char>, i: usize) -> (r: bool)
    ensures
        r == matches_at(s@, pat@, i as int),
{
    if pat.len() > s.len() || i > s.len() - pat.len() {
        return false;
    }
    let mut k: usize = 0;
    while k < pat.len()
        invariant
            k <= pat.len(),
            i + pat.len() <= s.len(),
            forall|j: int| 0 <= j < k ==> s@[i + j] == pat@[j],
        decreases pat.len() - k,
    {
        if s[i + k] != pat[k] {
            assert(s@.subrange(i as int, i + pat.len())[k as int] != pat@[k as int]);
            return false;
        }
        k += 1;
    }
    assert(s@.subrange(i as int, i + pat.len()) =~= pat@);
    true
}

/// The first position at or after `from` where `pat` occurs in `s`.
pub fn find_from(s: &Vec<char>, pat: &Vec<char>, from: usize) -> (r: Option<usize>)
    ensures
        match r {
            Some(i) => first_match(s@, pat@, from as int) == Some(i as int) && from <= i && i
                + pat.len() <= s.len(),
            None => first_match(s@, pat@, from as int) is None,
        },
{
    if pat.len() > s.len() {
        return None;
    }
    let last: usize = s.len() - pat.len();
    let mut i: usize = from;
    while i <= last
        invariant
            from <= i,
            last == s.len() - pat.len(),
            first_match(s@, pat@, from as int) == first_match(s@, pat@, i as int),
        decreases last + 1 - i,
    {
        if check_at(s, pat, i) {
            return Some(i);
        }
        if i == last {
            proof {
                if pat.len() == 0 {
                    assert(s@.subrange(i as int, i as int) =~= pat@);
                }
                assert(first_match(s@, pat@, i + 1) is None);
            }
            return None;
        }
        i += 1;
    }
    None
}

/// Whether `pat` occurs somewhere in `s`.
pub fn contains(s: &Vec<char>, pat: &Vec<char>) -> (r: bool)
    ensures
        r == contains_sub(s@, pat@),
{
    find_from(s, pat, 0).is_some()
}

/// Whether `pat` occurs somewhere in `s`, for strings.
pub fn str_contains(s: &str, pat: &str) -> (r: bool)
    ensures
        r == contains_sub(s@, pat@),
{
    let sv = to_chars(s);
    let pv = to_chars(pat);
    contains(&sv, &pv)
}

/// A copy of the characters of `s` from `lo` up to `hi`.
pub fn slice_chars(s: &Vec<char>, lo: usize, hi: usize) -> (r: Vec<char>)
    requires
        lo <= hi <= s.len(),
    ensures
        r@ == s@.subrange(lo as int, hi as int),
{
    let mut out: Vec<char> = Vec::new();
    let mut k: usize = lo;
    while k < hi
        invariant
            lo <= k <= hi <= s.len(),
            out@ == s@.subrange(lo as int, k as int),
        decreases hi - k,
    {
        out.push(s[k]);
        assert(out@ =~= s@.subrange(lo as int, k + 1));
        k += 1;
    }
    out
}

/// Appends the characters of `more` to `acc`.
pub fn extend_chars(acc: &mut Vec<char>, more: &Vec<char>)
    ensures
        final(acc)@ == old(acc)@ + more@,
{
    let mut k: usize = 0;
    while k < more.len()
        invariant
            k <= more.len(),
            acc@ == old(acc)@ + more@.subrange(0, k as int),
        decreases more.len() - k,
    {
        acc.push(more[k]);
        assert(acc@ =~= old(acc)@ + more@.subrange(0, k + 1));
        k += 1;
    }
    assert(more@.subrange(0, more.len() as int) =~= more@);
}

/// The character sequences that a vector of character vectors holds.
pub open spec fn lines(v: Seq<Vec<char>>) -> Seq<Seq<char>> {
    Seq::new(v.len(), |i: int| v[i]@)
}

/// What `first_match` finds is an occurrence, and the first one at or after `from`.
pub proof fn lemma_first_match(s: Seq<char>, pat: Seq<char>, from: int)
    requires
        0 <= from,
    ensures
        match first_match(s, pat, from) {
            Some(i) => from <= i && matches_at(s, pat, i) && forall|j: int|
                from <= j < i ==> !matches_at(s, pat, j),
            None => forall|j: int| from <= j ==> !matches_at(s, pat, j),
        },
    decreases s.len() - from,
{
    if from + pat.len() > s.len() {
    } else if matches_at(s, pat, from) {
    } else if from >= s.len() {
        assert(s.subrange(from, from + pat.len()) =~= pat);
    } else {
        lemma_first_match(s, pat, from + 1);
    }
}

/// The pieces of `s` between the occurrences of `sep`.
pub fn split(s: &Vec<char>, sep: &Vec<char>) -> (r: Vec<Vec<char>>)
    ensures
        lines(r@) == split_on(s@, sep@),
        r.len() >= 1,
{
    let mut out: Vec<Vec<char>> = Vec::new();
    let mut pos: usize = 0;
    if sep.len() == 0 {
        out.push(slice_chars(s, 0, s.len()));
        assert(lines(out@) =~= split_on(s@, sep@));
        return out;
    }
    loop
        invariant
            pos <= s.len(),
            sep.len() > 0,
            split_on(s@, sep@) == lines(out@) + split_from(s@, sep@, pos as int),
        decreases s.len() - pos,
    {
        match find_from(s, sep, pos) {
            Some(i) => {
                let piece = slice_chars(s, pos, i);
                proof {
                    assert(lines(out@.push(piece)) =~= lines(out@) + seq![piece@]);
                }
                out.push(piece);
                pos = i + sep.len();
            },
            None => {
                let piece = slice_chars(s, pos, s.len());
                proof {
                    assert(lines(out@.push(piece)) =~= lines(out@) + seq![piece@]);
                }
                out.push(piece);
                return out;
            },
        }
    }
}

/// The parts written one after another with `sep` between neighbours.
pub fn join_parts(parts: &Vec<Vec<char>>, sep: &Vec<char>) -> (r: Vec<char>)
    ensures
        r@ == join(lines(parts@), sep@),
{
    let mut out: Vec<char> = Vec::new();
    let mut k: usize = 0;
    while k < parts.len()
        invariant
            k <= parts.len(),
            out@ == join(lines(parts@).take(k as int), sep@),
        decreases parts.len() - k,
    {
        proof {
            let now = lines(parts@).take(k + 1);
            assert(now.drop_last() =~= lines(parts@).take(k as int));
            assert(now.last() == parts@[k as int]@);
        }
        if k > 0 {
            extend_chars(&mut out, sep);
        }
        extend_chars(&mut out, &parts[k]);
        proof {
            assert(lines(parts@).take(0).len() == 0);
            assert(out@ =~= join(lines(parts@).take(k + 1), sep@));
        }
        k += 1;
    }
    assert(lines(parts@).take(parts.len() as int) =~= lines(parts@));
    out
}

/// `s` with every occurrence of `from` replaced by `to`.
pub fn replace(s: &Vec<char>, from: &Vec<char>, to: &Vec<char>) -> (r: Vec<char>)
    ensures
        r@ == replace_all(s@, from@, to@),
{
    let mut out: Vec<char> = Vec::new();
    if from.len() == 0 {
        let mut k: usize = 0;
        assert(s@.subrange(0, s.len() as int) =~= s@);
        while k < s.len()
            invariant
                k <= s.len(),
                interleave(s@, to@) == out@ + interleave(s@.subrange(k as int, s.len() as int), to@),
            decreases s.len() - k,
        {
            proof {
                let rest = s@.subrange(k as int, s.len() as int);
                assert(rest.drop_first() =~= s@.subrange(k + 1, s.len() as int));
                assert(out@ + (to@ + seq![rest[0]] + interleave(rest.drop_first(), to@)) =~= (out@
                    + to@).push(s@[k as int]) + interleave(rest.drop_first(), to@));
            }
            extend_chars(&mut out, to);
            out.push(s[k]);
            k += 1;
        }
        extend_chars(&mut out, to);
        return out;
    }
    let mut pos: usize = 0;
    loop
        invariant
            pos <= s.len(),
            from.len() > 0,
            replace_all(s@, from@, to@) == out@ + replace_from(s@, from@, to@, pos as int),
        decreases s.len() - pos,
    {
        match find_from(s, from, pos) {
            Some(i) => {
                let piece = slice_chars(s, pos, i);
                proof {
                    assert(out@ + (piece@ + to@ + replace_from(s@, from@, to@, i + from.len()))
                        =~= out@ + piece@ + to@ + replace_from(s@, from@, to@, i + from.len()));
                }
                extend_chars(&mut out, &piece);
                extend_chars(&mut out, to);
                pos = i + from.len();
            },
            None => {
                let piece = slice_chars(s, pos, s.len());
                extend_chars(&mut out, &piece);
                return out;
            },
        }
    }
}

/// `s` without the runs of `c` at both ends.
pub fn trim_matches(s: &Vec<char>, c: char) -> (r: Vec<char>)
    ensures
        r@ == trim_char(s@, c),
{
    let n = s.len();
    let mut lo: usize = 0;
    assert(s@.subrange(0, n as int) =~= s@);
    while lo < n && s[lo] == c
        invariant
            lo <= n,
            n == s.len(),
            trim_start_char(s@, c) == trim_start_char(s@.subrange(lo as int, n as int), c),
        decreases n - lo,
    {
        proof {
            let rest = s@.subrange(lo as int, n as int);
            assert(rest.drop_first() =~= s@.subrange(lo + 1, n as int));
        }
        lo += 1;
    }
    let mut hi: usize = n;
    while hi > lo && s[hi - 1] == c
        invariant
            lo <= hi <= n,
            n == s.len(),
            trim_char(s@, c) == trim_end_char(s@.subrange(lo as int, hi as int), c),
        decreases hi - lo,
    {
        proof {
            let rest = s@.subrange(lo as int, hi as int);
            assert(rest.drop_last() =~= s@.subrange(lo as int, hi - 1));
        }
        hi -= 1;
    }
    slice_chars(s, lo, hi)
}

/// Whether `c` has the Unicode property White_Space.
pub fn is_whitespace(c: char) -> (r: bool)
    ensures
        r == is_space(c),
{
    let n: u32 = c as u32;
    (0x09 <= n && n <= 0x0d) || n == 0x20 || n == 0x85 || n == 0xa0 || n == 0x1680 || (0x2000 <= n
        && n <= 0x200a) || n == 0x2028 || n == 0x2029 || n == 0x202f || n == 0x205f || n == 0x3000
}

/// `s` without white space at both ends.
pub fn trim(s: &Vec<char>) -> (r: Vec<char>)
    ensures
        r@ == trim_space(s@),
{
    let n = s.len();
    let mut lo: usize = 0;
    assert(s@.subrange(0, n as int) =~= s@);
    while lo < n && is_whitespace(s[lo])
        invariant
            lo <= n,
            n == s.len(),
            trim_start_space(s@) == trim_start_space(s@.subrange(lo as int, n as int)),
        decreases n - lo,
    {
        proof {
            let rest = s@.subrange(lo as int, n as int);
            assert(rest.drop_first() =~= s@.subrange(lo + 1, n as int));
        }
        lo += 1;
    }
    let mut hi: usize = n;
    while hi > lo && is_whitespace(s[hi - 1])
        invariant
            lo <= hi <= n,
            n == s.len(),
            trim_space(s@) == trim_end_space(s@.subrange(lo as int, hi as int)),
        decreases hi - lo,
    {
        proof {
            let rest = s@.subrange(lo as int, hi as int);
            assert(rest.drop_last() =~= s@.subrange(lo as int, hi - 1));
        }
        hi -= 1;
    }
    slice_chars(s, lo, hi)
}

/// `n` in decimal.
pub fn decimal_chars(n: usize) -> (r: Vec<char>)
    ensures
        r@ == decimal(n as nat),
    decreases n,
{
    if n < 10 {
        let mut out: Vec<char> = Vec::new();
        out.push((48 + n as u8) as char);
        assert(out@ =~= seq![digit_char(n as nat)]);
        out
    } else {
        let mut out = decimal_chars(n / 10);
        out.push((48 + (n % 10) as u8) as char);
        out
    }
}

/// Reads a run of decimal digits as a number, where it fits.
pub fn parse_decimal(s: &Vec<char>) -> (r: Option<usize>)
    ensures
        match r {
            Some(v) => s.len() > 0 && all_digits(s@) && decimal_value(s@) == v,
            None => s.len() == 0 || !all_digits(s@) || decimal_value(s@) > usize::MAX,
        },
{
    if s.len() == 0 {
        return None;
    }
    let mut acc: usize = 0;
    let mut k: usize = 0;
    while k < s.len()
        invariant
            k <= s.len(),
            all_digits(s@.subrange(0, k as int)),
            acc == decimal_value(s@.subrange(0, k as int)),
        decreases s.len() - k,
    {
        let c = s[k];
        let code: u32 = c as u32;
        proof {
            let now = s@.subrange(0, k + 1);
            assert(now.drop_last() =~= s@.subrange(0, k as int));
            assert(now.last() == c);
        }
        if code < 48 || code > 57 {
            assert(!is_digit(s@[k as int]));
            return None;
        }
        let d: usize = (code - 48) as usize;
        if acc > (usize::MAX - d) / 10 {
            proof {
                lemma_decimal_value_grows(s@, k + 1);
            }
            return None;
        }
        acc = acc * 10 + d;
        assert(all_digits(s@.subrange(0, k + 1))) by {
            assert forall|i: int| 0 <= i < k + 1 implies is_digit(
                #[trigger] s@.subrange(0, k + 1)[i],
            ) by {
                if i < k {
                    assert(s@.subrange(0, k as int)[i] == s@[i]);
                }
            }
        }
        k += 1;
    }
    assert(s@.subrange(0, s.len() as int) =~= s@);
    Some(acc)
}

/// A longer run of digits writes a number at least as large as any of its prefixes.
pub proof fn lemma_decimal_value_grows(s: Seq<char>, k: int)
    requires
        0 <= k <= s.len(),
    ensures
        decimal_value(s.subrange(0, k)) <= decimal_value(s),
    decreases s.len() - k,
{
    if k == s.len() {
        assert(s.subrange(0, k) =~= s);
    } else {
        lemma_decimal_value_grows(s.drop_last(), k);
        assert(s.drop_last().subrange(0, k) =~= s.subrange(0, k));
    }
}


/// The least position at or after `from` that holds one of `chars`.
pub open spec fn first_in(s: Seq<char>, chars: Seq<char>, from: int) -> Option<int>
    decreases s.len() - from,
{
    if from < 0 || from >= s.len() {
        None
    } else if chars.contains(s[from]) {
        Some(from)
    } else {
        first_in(s, chars, from + 1)
    }
}

/// The pieces of `s`, read from position `from`, between the characters that are
/// among `chars`.
pub open spec fn split_any_from(s: Seq<char>, chars: Seq<char>, from: int) -> Seq<Seq<char>>
    decreases s.len() - from,
{
    match first_in(s, chars, from) {
        Some(i) if from <= i < s.len() => seq![s.subrange(from, i)] + split_any_from(
            s,
            chars,
            i + 1,
        ),
        _ => seq![s.subrange(from, s.len() as int)],
    }
}

/// Whether `c` is among `chars`.
pub fn is_among(chars: &Vec<char>, c: char) -> (r: bool)
    ensures
        r == chars@.contains(c),
{
    let mut k: usize = 0;
    while k < chars.len()
        invariant
            k <= chars.len(),
            forall|i: int| 0 <= i < k ==> chars@[i] != c,
        decreases chars.len() - k,
    {
        if chars[k] == c {
            return true;
        }
        k += 1;
    }
    false
}

/// The first position at or after `from` that holds one of `chars`.
pub fn find_any(s: &Vec<char>, chars: &Vec<char>, from: usize) -> (r: Option<usize>)
    ensures
        match r {
            Some(i) => first_in(s@, chars@, from as int) == Some(i as int) && from <= i < s.len(),
            None => first_in(s@, chars@, from as int) is None,
        },
{
    let mut k: usize = from;
    while k < s.len()
        invariant
            from <= k,
            first_in(s@, chars@, from as int) == first_in(s@, chars@, k as int),
        decreases s.len() - k,
    {
        if is_among(chars, s[k]) {
            return Some(k);
        }
        k += 1;
    }
    None
}

/// The characters of a string between two positions, as a string.
pub fn substring(s: &Vec<char>, lo: usize, hi: usize) -> (r: String)
    requires
        lo <= hi <= s.len(),
    ensures
        r@ == s@.subrange(lo as int, hi as int),
{
    from_chars(&slice_chars(s, lo, hi))
}

/// Whether `s` begins with `pat`, for strings.
pub fn str_starts_with(s: &str, pat: &str) -> (r: bool)
    ensures
        r == starts_with(s@, pat@),
{
    check_at(&to_chars(s), &to_chars(pat), 0)
}


/// A character with the letters `A` to `Z` turned into `a` to `z`.
pub open spec fn ascii_lower(c: char) -> char {
    if 'A' <= c <= 'Z' {
        ((c as u8) + 32) as char
    } else {
        c
    }
}

/// A text with the letters `A` to `Z` turned into `a` to `z`.
pub open spec fn lowered(s: Seq<char>) -> Seq<char> {
    Seq::new(s.len(), |i: int| ascii_lower(s[i]))
}

/// A text with the letters `A` to `Z` turned into `a` to `z`.
pub fn to_ascii_lower(s: &Vec<char>) -> (r: Vec<char>)
    ensures
        r@ == lowered(s@),
{
    let mut out: Vec<char> = Vec::new();
    let mut k: usize = 0;
    while k < s.len()
        invariant
            k <= s.len(),
            out@ == lowered(s@).take(k as int),
        decreases s.len() - k,
    {
        let c = s[k];
        let low = if 'A' <= c && c <= 'Z' {
            ((c as u8) + 32) as char
        } else {
            c
        };
        out.push(low);
        assert(out@ =~= lowered(s@).take(k + 1));
        k += 1;
    }
    assert(lowered(s@).take(s.len() as int) =~= lowered(s@));
    out
}

/// The pieces of `s` between the characters that are among `chars`.
pub fn split_any(s: &Vec<char>, chars: &Vec<char>) -> (r: Vec<Vec<char>>)
    ensures
        lines(r@) == split_any_from(s@, chars@, 0),
        r.len() >= 1,
{
    let mut out: Vec<Vec<char>> = Vec::new();
    let mut pos: usize = 0;
    loop
        invariant
            pos <= s.len(),
            split_any_from(s@, chars@, 0) == lines(out@) + split_any_from(s@, chars@, pos as int),
        decreases s.len() - pos,
    {
        match find_any(s, chars, pos) {
            Some(i) => {
                let piece = slice_chars(s, pos, i);
                proof {
                    assert(lines(out@.push(piece)) =~= lines(out@) + seq![piece@]);
                }
                out.push(piece);
                pos = i + 1;
            },
            None => {
                let piece = slice_chars(s, pos, s.len());
                proof {
                    assert(lines(out@.push(piece)) =~= lines(out@) + seq![piece@]);
                }
                out.push(piece);
                return out;
            },
        }
    }
}

} // verus!
