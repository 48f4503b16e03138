//! Character-level text utilities the layout parser is built on: splitting
//! on a separator, trimming whitespace, and reading unsigned 16-bit numbers.

use vstd::prelude::*;

verus! {

/// Pieces of `s` cut at every leftmost, non-overlapping occurrence of the
/// non-empty separator `sep`; there is always at least one piece.
pub open spec fn spec_split(s: Seq<char>, sep: Seq<char>) -> Seq<Seq<char>>
    decreases s.len(),
{
    if sep.len() == 0 || s.len() == 0 {
        seq![s]
    } else if s.len() >= sep.len() && s.take(sep.len() as int) == sep {
        seq![Seq::<char>::empty()] + spec_split(s.skip(sep.len() as int), sep)
    } else {
        let rest = spec_split(s.skip(1), sep);
        seq![seq![s[0]] + rest[0]] + rest.skip(1)
    }
}

/// Splitting yields at least one piece, so the first and last piece always
/// exist.
pub proof fn lemma_split_len(s: Seq<char>, sep: Seq<char>)
    ensures
        spec_split(s, sep).len() >= 1,
    decreases s.len(),
{
    if !(sep.len() == 0 || s.len() == 0) && !(s.len() >= sep.len() && s.take(
        sep.len() as int,
    ) == sep) {
        lemma_split_len(s.skip(1), sep);
    }
}

/// `c` does not occur in `p`.
pub open spec fn excludes(p: Seq<char>, c: char) -> bool {
    forall|i: int| 0 <= i < p.len() ==> p[i] != c
}

/// Splitting on the one-character separator `c` leaves no piece that still
/// contains `c`.
pub proof fn lemma_split_single_excludes(s: Seq<char>, c: char)
    ensures
        forall|j: int|
            0 <= j < spec_split(s, seq![c]).len() ==> excludes(
                #[trigger] spec_split(s, seq![c])[j],
                c,
            ),
    decreases s.len(),
{
    let sep = seq![c];
    let pieces = spec_split(s, sep);
    if s.len() == 0 {
        assert(pieces == seq![s]);
    } else if s.take(1) == sep {
        lemma_split_single_excludes(s.skip(1), c);
        let rest = spec_split(s.skip(1), sep);
        assert(pieces == seq![Seq::<char>::empty()] + rest);
        assert forall|j: int| 0 <= j < pieces.len() implies excludes(#[trigger] pieces[j], c) by {
            if j > 0 {
                assert(pieces[j] == rest[j - 1]);
            }
        }
    } else {
        assert(s.take(1) =~= seq![s[0]]);
        assert(s[0] != c);
        lemma_split_single_excludes(s.skip(1), c);
        lemma_split_len(s.skip(1), sep);
        let rest = spec_split(s.skip(1), sep);
        assert(pieces == seq![seq![s[0]] + rest[0]] + rest.skip(1));
        assert forall|j: int| 0 <= j < pieces.len() implies excludes(#[trigger] pieces[j], c) by {
            if j == 0 {
                assert(excludes(rest[0], c));
                assert forall|i: int| 0 <= i < pieces[0].len() implies pieces[0][i] != c by {
                    if i > 0 {
                        assert(pieces[0][i] == rest[0][i - 1]);
                    }
                }
            } else {
                assert(pieces[j] == rest.skip(1)[j - 1]);
                assert(pieces[j] == rest[j]);
            }
        }
    }
}

/// Splitting a string that never contains `c` leaves only pieces that never
/// contain `c`.
pub proof fn lemma_split_pieces_exclude(s: Seq<char>, sep: Seq<char>, c: char)
    requires
        excludes(s, c),
    ensures
        forall|j: int|
            0 <= j < spec_split(s, sep).len() ==> excludes(#[trigger] spec_split(s, sep)[j], c),
    decreases s.len(),
{
    let pieces = spec_split(s, sep);
    if sep.len() == 0 || s.len() == 0 {
        assert(pieces == seq![s]);
    } else if s.len() >= sep.len() && s.take(sep.len() as int) == sep {
        assert forall|i: int| 0 <= i < s.skip(sep.len() as int).len() implies s.skip(
            sep.len() as int,
        )[i] != c by {
            assert(s.skip(sep.len() as int)[i] == s[i + sep.len()]);
        }
        lemma_split_pieces_exclude(s.skip(sep.len() as int), sep, c);
        let rest = spec_split(s.skip(sep.len() as int), sep);
        assert forall|j: int| 0 <= j < pieces.len() implies excludes(#[trigger] pieces[j], c) by {
            if j > 0 {
                assert(pieces[j] == rest[j - 1]);
            }
        }
    } else {
        assert forall|i: int| 0 <= i < s.skip(1).len() implies s.skip(1)[i] != c by {
            assert(s.skip(1)[i] == s[i + 1]);
        }
        lemma_split_pieces_exclude(s.skip(1), sep, c);
        lemma_split_len(s.skip(1), sep);
        let rest = spec_split(s.skip(1), sep);
        assert forall|j: int| 0 <= j < pieces.len() implies excludes(#[trigger] pieces[j], c) by {
            if j == 0 {
                assert forall|i: int| 0 <= i < pieces[0].len() implies pieces[0][i] != c by {
                    if i > 0 {
                        assert(pieces[0][i] == rest[0][i - 1]);
                    }
                }
            } else {
                assert(pieces[j] == rest.skip(1)[j - 1]);
                assert(pieces[j] == rest[j]);
            }
        }
    }
}

/// First piece of `ss` with `p` glued onto its front; the other pieces stay.
spec fn cons_first(p: Seq<char>, ss: Seq<Seq<char>>) -> Seq<Seq<char>>
    recommends
        ss.len() >= 1,
{
    seq![p + ss[0]] + ss.skip(1)
}

/// Whether `sep` occurs in `s` starting at position `i`.
fn matches_at(s: &str, i: usize, sep: &str) -> (found: bool)
    requires
        i + sep@.len() <= s@.len(),
        s@.len() <= usize::MAX,
    ensures
        found <==> s@.subrange(i as int, i as int + sep@.len() as int) == sep@,
{
    let n = sep.unicode_len();
    let mut j: usize = 0;
    while j < n
        invariant
            n == sep@.len(),
            i + n <= s@.len() <= usize::MAX,
            0 <= j <= n,
            forall|k: int| 0 <= k < j ==> s@[i + k] == sep@[k],
        decreases n - j,
    {
        if s.get_char(i + j) != sep.get_char(j) {
            proof {
                let sub = s@.subrange(i as int, i as int + n as int);
                assert(sub[j as int] == s@[i + j]);
            }
            return false;
        }
        j += 1;
    }
    proof {
        assert(s@.subrange(i as int, i as int + n as int) =~= sep@);
    }
    true
}

/// Splits `s` at every leftmost occurrence of the non-empty separator `sep`,
/// exactly as `spec_split` describes.
pub fn split_str<'a>(s: &'a str, sep: &str) -> (pieces: Vec<&'a str>)
    requires
        sep@.len() >= 1,
    ensures
        pieces.deep_view() == spec_split(s@, sep@),
        pieces.len() >= 1,
{
    let n = s.unicode_len();
    let sepn = sep.unicode_len();
    let mut pieces: Vec<&'a str> = Vec::new();
    let mut start: usize = 0;
    let mut i: usize = 0;
    proof {
        lemma_split_len(s@, sep@);
        assert(s@.skip(0) =~= s@);
        assert(s@.subrange(0, 0) =~= Seq::<char>::empty());
        assert(pieces.deep_view() =~~= Seq::<Seq<char>>::empty());
    }
    while i < n
        invariant
            n == s@.len() <= usize::MAX,
            sepn == sep@.len() >= 1,
            0 <= start <= i <= n,
            spec_split(s@, sep@) == pieces.deep_view() + cons_first(
                s@.subrange(start as int, i as int),
                spec_split(s@.skip(i as int), sep@),
            ),
        decreases n - i,
    {
        if sepn <= n - i && matches_at(s, i, sep) {
            let piece = s.substring_char(start, i);
            let ghost prev = pieces.deep_view();
            let ghost cur = s@.subrange(start as int, i as int);
            let ghost tt = spec_split(s@.skip(i + sepn as int), sep@);
            proof {
                let sv = s@;
                let tail = sv.skip(i as int);
                assert(tail.take(sepn as int) =~= sv.subrange(i as int, i + sepn as int));
                assert(tail.take(sepn as int) == sep@);
                assert(tail.skip(sepn as int) =~= sv.skip(i + sepn as int));
                assert(spec_split(tail, sep@) == seq![Seq::<char>::empty()] + tt);
                lemma_split_len(sv.skip(i + sepn as int), sep@);
                assert(cons_first(cur, spec_split(tail, sep@)) =~~= seq![cur] + tt);
                assert(spec_split(sv, sep@) == prev + (seq![cur] + tt));
            }
            pieces.push(piece);
            i = i + sepn;
            start = i;
            proof {
                assert(pieces.deep_view() =~~= prev + seq![cur]);
                assert(s@.subrange(start as int, i as int) =~= Seq::<char>::empty());
                assert(Seq::<char>::empty() + tt[0] =~= tt[0]);
                assert(cons_first(Seq::<char>::empty(), tt) =~~= tt);
                assert((prev + seq![cur]) + tt =~~= prev + (seq![cur] + tt));
                assert(spec_split(s@, sep@) == pieces.deep_view() + cons_first(
                    s@.subrange(start as int, i as int),
                    spec_split(s@.skip(i as int), sep@),
                ));
            }
        } else {
            proof {
                let sv = s@;
                let tail = sv.skip(i as int);
                assert(tail.len() > 0);
                if tail.len() >= sepn {
                    assert(tail.take(sepn as int) =~= sv.subrange(i as int, i + sepn as int));
                    assert(tail.take(sepn as int) != sep@);
                }
                let rest = spec_split(tail.skip(1), sep@);
                lemma_split_len(tail.skip(1), sep@);
                assert(spec_split(tail, sep@) == seq![seq![tail[0]] + rest[0]] + rest.skip(1));
                assert(tail[0] == sv[i as int]);
                assert(tail.skip(1) =~= sv.skip(i + 1));
                let cur = sv.subrange(start as int, i as int);
                assert(cur + (seq![sv[i as int]] + rest[0]) =~= (cur + seq![sv[i as int]])
                    + rest[0]);
                assert(cur + seq![sv[i as int]] =~= sv.subrange(start as int, i + 1));
                assert(cons_first(cur, spec_split(tail, sep@)) =~~= cons_first(
                    sv.subrange(start as int, i + 1),
                    spec_split(sv.skip(i + 1), sep@),
                ));
            }
            i = i + 1;
        }
    }
    let piece = s.substring_char(start, n);
    let ghost prev = pieces.deep_view();
    pieces.push(piece);
    proof {
        assert(s@.skip(n as int) =~= Seq::<char>::empty());
        assert(spec_split(s@.skip(n as int), sep@) == seq![Seq::<char>::empty()]);
        assert(s@.subrange(start as int, n as int) + Seq::<char>::empty() =~= s@.subrange(
            start as int,
            n as int,
        ));
        assert(cons_first(
            s@.subrange(start as int, n as int),
            spec_split(s@.skip(n as int), sep@),
        ) =~~= seq![s@.subrange(start as int, n as int)]);
        assert(pieces.deep_view() =~~= prev + seq![piece@]);
    }
    pieces
}

/// Space, tab, carriage return and line feed count as trimmable whitespace.
pub open spec fn is_space(c: char) -> bool {
    c == ' ' || c == '\t' || c == '\r' || c == '\n'
}

/// `s` without its leading whitespace.
pub open spec fn trim_front(s: Seq<char>) -> Seq<char>
    decreases s.len(),
{
    if s.len() > 0 && is_space(s[0]) {
        trim_front(s.skip(1))
    } else {
        s
    }
}

/// `s` without its trailing whitespace.
pub open spec fn trim_back(s: Seq<char>) -> Seq<char>
    decreases s.len(),
{
    if s.len() > 0 && is_space(s.last()) {
        trim_back(s.drop_last())
    } else {
        s
    }
}

/// `s` without leading and trailing whitespace.
pub open spec fn spec_trim(s: Seq<char>) -> Seq<char> {
    trim_back(trim_front(s))
}

proof fn lemma_trim_front_skip(s: Seq<char>, k: int)
    requires
        0 <= k <= s.len(),
        forall|i: int| 0 <= i < k ==> is_space(s[i]),
        k == s.len() || !is_space(s[k]),
    ensures
        trim_front(s) == s.skip(k),
    decreases k,
{
    if k == 0 {
        assert(s.skip(0) =~= s);
    } else {
        assert(is_space(s[0]));
        assert forall|i: int| 0 <= i < k - 1 implies is_space(s.skip(1)[i]) by {
            assert(s.skip(1)[i] == s[i + 1]);
        }
        if k < s.len() {
            assert(s.skip(1)[k - 1] == s[k]);
        }
        lemma_trim_front_skip(s.skip(1), k - 1);
        assert(s.skip(1).skip(k - 1) =~= s.skip(k));
    }
}

proof fn lemma_trim_back_take(s: Seq<char>, k: int)
    requires
        0 <= k <= s.len(),
        forall|i: int| k <= i < s.len() ==> is_space(s[i]),
        k == 0 || !is_space(s[k - 1]),
    ensures
        trim_back(s) == s.take(k),
    decreases s.len(),
{
    if s.len() == 0 {
        assert(s.take(0) =~= s);
    } else if k == s.len() {
        assert(!is_space(s.last()));
        assert(s.take(k) =~= s);
    } else {
        assert(is_space(s.last()));
        assert forall|i: int| k <= i < s.drop_last().len() implies is_space(s.drop_last()[i]) by {
            assert(s.drop_last()[i] == s[i]);
        }
        if k > 0 {
            assert(s.drop_last()[k - 1] == s[k - 1]);
        }
        lemma_trim_back_take(s.drop_last(), k);
        assert(s.drop_last().take(k) =~= s.take(k));
    }
}

/// Trimming never introduces a character: whatever `s` excludes, its trimmed
/// form excludes too.
pub proof fn lemma_trim_excludes(s: Seq<char>, c: char)
    requires
        excludes(s, c),
    ensures
        excludes(spec_trim(s), c),
{
    lemma_trim_front_excludes(s, c);
    lemma_trim_back_excludes(trim_front(s), c);
}

proof fn lemma_trim_front_excludes(s: Seq<char>, c: char)
    requires
        excludes(s, c),
    ensures
        excludes(trim_front(s), c),
    decreases s.len(),
{
    if s.len() > 0 && is_space(s[0]) {
        assert forall|i: int| 0 <= i < s.skip(1).len() implies s.skip(1)[i] != c by {
            assert(s.skip(1)[i] == s[i + 1]);
        }
        lemma_trim_front_excludes(s.skip(1), c);
    }
}

proof fn lemma_trim_back_excludes(s: Seq<char>, c: char)
    requires
        excludes(s, c),
    ensures
        excludes(trim_back(s), c),
    decreases s.len(),
{
    if s.len() > 0 && is_space(s.last()) {
        assert forall|i: int| 0 <= i < s.drop_last().len() implies s.drop_last()[i] != c by {
            assert(s.drop_last()[i] == s[i]);
        }
        lemma_trim_back_excludes(s.drop_last(), c);
    }
}

fn is_space_char(c: char) -> (space: bool)
    ensures
        space == is_space(c),
{
    c == ' ' || c == '\t' || c == '\r' || c == '\n'
}

/// Removes leading and trailing whitespace, exactly as `spec_trim` describes.
pub fn trim_str<'a>(s: &'a str) -> (trimmed: &'a str)
    ensures
        trimmed@ == spec_trim(s@),
{
    let n = s.unicode_len();
    let mut lo: usize = 0;
    while lo < n && is_space_char(s.get_char(lo))
        invariant
            n == s@.len(),
            0 <= lo <= n,
            forall|k: int| 0 <= k < lo ==> is_space(s@[k]),
        decreases n - lo,
    {
        lo += 1;
    }
    let mut hi: usize = n;
    while hi > lo && is_space_char(s.get_char(hi - 1))
        invariant
            n == s@.len(),
            0 <= lo <= hi <= n,
            lo == n || !is_space(s@[lo as int]),
            forall|k: int| 0 <= k < lo ==> is_space(s@[k]),
            forall|k: int| hi <= k < n ==> is_space(s@[k]),
        decreases hi,
    {
        hi -= 1;
    }
    proof {
        lemma_trim_front_skip(s@, lo as int);
        let front = s@.skip(lo as int);
        assert forall|i: int| hi - lo <= i < front.len() implies is_space(front[i]) by {
            assert(front[i] == s@[i + lo]);
        }
        if hi > lo {
            assert(front[hi - lo - 1] == s@[hi - 1]);
        }
        lemma_trim_back_take(front, hi - lo);
        assert(front.take(hi - lo) =~= s@.subrange(lo as int, hi as int));
    }
    s.substring_char(lo, hi)
}

/// A decimal digit.
pub open spec fn is_digit(c: char) -> bool {
    48 <= c as u32 <= 57
}

/// Numeric value of one decimal digit.
pub open spec fn digit_val(c: char) -> int {
    c as u32 - 48
}

/// Every character of `s` is a decimal digit.
pub open spec fn all_digits(s: Seq<char>) -> bool {
    forall|i: int| 0 <= i < s.len() ==> is_digit(s[i])
}

/// Value of a digit string read in base ten.
pub open spec fn digits_value(s: Seq<char>) -> int
    decreases s.len(),
{
    if s.len() == 0 {
        0
    } else {
        digits_value(s.drop_last()) * 10 + digit_val(s.last())
    }
}

proof fn lemma_digits_value_nonneg(s: Seq<char>)
    requires
        all_digits(s),
    ensures
        digits_value(s) >= 0,
    decreases s.len(),
{
    if s.len() > 0 {
        assert forall|i: int| 0 <= i < s.drop_last().len() implies is_digit(s.drop_last()[i]) by {
            assert(s.drop_last()[i] == s[i]);
        }
        lemma_digits_value_nonneg(s.drop_last());
    }
}

proof fn lemma_digits_value_monotone(s: Seq<char>, k: int)
    requires
        0 <= k <= s.len(),
        all_digits(s),
    ensures
        digits_value(s) >= digits_value(s.take(k)),
    decreases s.len() - k,
{
    if k < s.len() {
        lemma_digits_value_monotone(s, k + 1);
        assert(s.take(k + 1).drop_last() =~= s.take(k));
        assert(s.take(k + 1).last() == s[k]);
        assert forall|i: int| 0 <= i < s.take(k).len() implies is_digit(s.take(k)[i]) by {
            assert(s.take(k)[i] == s[i]);
        }
        lemma_digits_value_nonneg(s.take(k));
        assert(digits_value(s.take(k + 1)) == digits_value(s.take(k)) * 10 + digit_val(s[k]));
    } else {
        assert(s.take(k) =~= s);
    }
}

/// The value of a non-empty, all-digit string that fits in sixteen bits;
/// `None` for every other string.
pub open spec fn spec_parse_u16(s: Seq<char>) -> Option<u16> {
    if s.len() > 0 && all_digits(s) && digits_value(s) <= u16::MAX {
        Some(digits_value(s) as u16)
    } else {
        None
    }
}

/// Reads a decimal number from `s`, exactly as `spec_parse_u16` describes.
pub fn parse_u16_str(s: &str) -> (parsed: Option<u16>)
    ensures
        parsed == spec_parse_u16(s@),
{
    let n = s.unicode_len();
    if n == 0 {
        return None;
    }
    let mut val: u32 = 0;
    let mut i: usize = 0;
    proof {
        assert(s@.take(0) =~= Seq::<char>::empty());
    }
    while i < n
        invariant
            n == s@.len(),
            0 < n,
            0 <= i <= n,
            all_digits(s@.take(i as int)),
            val == digits_value(s@.take(i as int)),
            val <= u16::MAX,
        decreases n - i,
    {
        let c = s.get_char(i);
        let u = c as u32;
        if u < 48 || u > 57 {
            proof {
                assert(!is_digit(s@[i as int]));
            }
            return None;
        }
        let next = val * 10 + (u - 48);
        proof {
            assert(s@.take(i + 1).drop_last() =~= s@.take(i as int));
            assert(s@.take(i + 1).last() == s@[i as int]);
            assert(digits_value(s@.take(i + 1)) == next);
            assert forall|k: int| 0 <= k < s@.take(i + 1).len() implies is_digit(
                #[trigger] s@.take(i + 1)[k],
            ) by {
                assert(s@.take(i + 1)[k] == s@[k]);
            }
        }
        if next > 65535 {
            proof {
                if all_digits(s@) {
                    lemma_digits_value_monotone(s@, i + 1);
                }
            }
            return None;
        }
        val = next;
        i += 1;
    }
    proof {
        assert(s@.take(n as int) =~= s@);
    }
    Some(val as u16)
}

} // verus!
