//! The mixer's volume report.  The report is free text; a channel is any
//! line that contains, somewhere, a non-space token, a colon and a space,
//! an integer, ` / `, optional spaces and a percentage like `50%`, ` / `,
//! and a possibly negative decibel figure ending in ` dB`.  Parsing yields
//! every channel line verbatim together with the integer-truncated average
//! of the channel percentages.  A report with no channel line is
//! malformed: the tool cannot proceed without a percentage.

use vstd::prelude::*;
use vstd::string::StrSliceExecFns;
use vstd::arithmetic::div_mod::{lemma_div_is_ordered, lemma_div_by_multiple};
use crate::digits::{all_digits, digits_val, is_digit, parse_decimal};
use crate::text::{is_space, is_space_exec, to_chars};

verus! {

#[derive(Clone, Copy, Debug, PartialEq, Eq, Structural)]
pub enum VolumeError {
    /// No line of the report matched the channel pattern.
    NoChannels,
    /// A channel's percentage does not fit the percentage type.
    PercentTooLarge,
}

/// First index at or after `i` whose character is not a digit.
pub open spec fn digit_end(s: Seq<char>, i: int) -> int
    decreases s.len() - i,
{
    if 0 <= i && i < s.len() && is_digit(s[i]) {
        digit_end(s, i + 1)
    } else {
        i
    }
}

/// First index at or after `i` whose character is not whitespace.
pub open spec fn space_end(s: Seq<char>, i: int) -> int
    decreases s.len() - i,
{
    if 0 <= i && i < s.len() && is_space(s[i]) {
        space_end(s, i + 1)
    } else {
        i
    }
}

pub open spec fn is_frac_char(c: char) -> bool {
    is_digit(c) || c == '.'
}

/// First index at or after `i` whose character is neither a digit nor `.`.
pub open spec fn frac_end(s: Seq<char>, i: int) -> int
    decreases s.len() - i,
{
    if 0 <= i && i < s.len() && is_frac_char(s[i]) {
        frac_end(s, i + 1)
    } else {
        i
    }
}

/// Whether `integer / spaces percentage% / decibels dB` starts exactly at
/// `i`: a digit run, ` / `, optional spaces, the percentage digits and
/// `%`, ` / `, an optional `-`, a run of digits and dots, and ` dB`.
pub open spec fn tail_match(s: Seq<char>, i: int) -> bool {
    let e1 = digit_end(s, i);
    let w = space_end(s, e1 + 3);
    let e2 = digit_end(s, w);
    let m0 = e2 + 4;
    let m = if m0 < s.len() && s[m0] == '-' { m0 + 1 } else { m0 };
    let e3 = frac_end(s, m);
    &&& 0 <= i
    &&& e1 > i
    &&& e1 + 3 <= s.len() && s[e1] == ' ' && s[e1 + 1] == '/' && s[e1 + 2] == ' '
    &&& e2 > w
    &&& e2 < s.len() && s[e2] == '%'
    &&& e2 + 4 <= s.len() && s[e2 + 1] == ' ' && s[e2 + 2] == '/' && s[e2 + 3] == ' '
    &&& e3 > m
    &&& e3 + 3 <= s.len() && s[e3] == ' ' && s[e3 + 1] == 'd' && s[e3 + 2] == 'B'
}

/// Start of the percentage digits of the pattern at `i`.
pub open spec fn tail_pct_lo(s: Seq<char>, i: int) -> int {
    space_end(s, digit_end(s, i) + 3)
}

/// End of the percentage digits of the pattern at `i`.
pub open spec fn tail_pct_hi(s: Seq<char>, i: int) -> int {
    digit_end(s, tail_pct_lo(s, i))
}

/// The percentage denoted by the pattern at `i`.
pub open spec fn tail_pct(s: Seq<char>, i: int) -> nat {
    digits_val(s.subrange(tail_pct_lo(s, i), tail_pct_hi(s, i)))
}

/// Whether a channel pattern sits at colon position `c`: a non-space
/// character just before the colon, a space just after it, and the numeric
/// tail from `c + 2` on.
pub open spec fn colon_match(s: Seq<char>, c: int) -> bool {
    &&& 1 <= c
    &&& c + 2 <= s.len()
    &&& s[c] == ':'
    &&& s[c + 1] == ' '
    &&& !is_space(s[c - 1])
    &&& tail_match(s, c + 2)
}

/// A line is a channel line when the pattern sits at some colon position.
pub open spec fn line_matches(s: Seq<char>) -> bool {
    exists|c: int| colon_match(s, c)
}

/// The leftmost colon position at or after `c0` where the pattern sits.
pub open spec fn first_colon_from(s: Seq<char>, c0: int) -> int
    decreases s.len() - c0,
{
    if colon_match(s, c0) {
        c0
    } else if c0 < s.len() {
        first_colon_from(s, c0 + 1)
    } else {
        c0
    }
}

/// The percentage a channel line reports: the one of its leftmost match.
pub open spec fn line_pct(s: Seq<char>) -> nat {
    tail_pct(s, first_colon_from(s, 1) + 2)
}

/// Index of the first newline in `s`, or its length when there is none.
pub open spec fn first_nl(s: Seq<char>) -> int
    decreases s.len(),
{
    if s.len() == 0 {
        0
    } else if s[0] == '\n' {
        0
    } else {
        1 + first_nl(s.drop_first())
    }
}

/// The lines of `s`: the segments between newline characters.
pub open spec fn lines(s: Seq<char>) -> Seq<Seq<char>>
    decreases s.len(),
{
    let k = first_nl(s);
    if 0 <= k < s.len() {
        seq![s.take(k)] + lines(s.skip(k + 1))
    } else {
        seq![s]
    }
}

/// The channel lines of a report, in order.
pub open spec fn matched_lines(ls: Seq<Seq<char>>) -> Seq<Seq<char>>
    decreases ls.len(),
{
    if ls.len() == 0 {
        Seq::empty()
    } else {
        (if line_matches(ls[0]) { seq![ls[0]] } else { Seq::<Seq<char>>::empty() })
            + matched_lines(ls.drop_first())
    }
}

/// How many lines of a report are channel lines.
pub open spec fn matched_count(ls: Seq<Seq<char>>) -> nat
    decreases ls.len(),
{
    if ls.len() == 0 {
        0
    } else {
        (if line_matches(ls[0]) { 1nat } else { 0nat }) + matched_count(ls.drop_first())
    }
}

/// The sum of the channel lines' percentages.
pub open spec fn pct_sum(ls: Seq<Seq<char>>) -> nat
    decreases ls.len(),
{
    if ls.len() == 0 {
        0
    } else {
        (if line_matches(ls[0]) { line_pct(ls[0]) } else { 0nat }) + pct_sum(ls.drop_first())
    }
}

/// Whether every channel line's percentage fits the percentage type.
pub open spec fn pcts_fit(ls: Seq<Seq<char>>) -> bool {
    forall|k: int| 0 <= k < ls.len() && line_matches(#[trigger] ls[k])
        ==> line_pct(ls[k]) <= u32::MAX
}

/// What parsing a volume report yields: the channel lines verbatim and the
/// integer-truncated average of their percentages, or the error naming
/// what was wrong with the report.
pub open spec fn volume_spec(s: Seq<char>) -> Result<(u32, Seq<Seq<char>>), VolumeError> {
    let ls = lines(s);
    if matched_count(ls) == 0 {
        Err(VolumeError::NoChannels)
    } else if !pcts_fit(ls) {
        Err(VolumeError::PercentTooLarge)
    } else {
        Ok(((pct_sum(ls) / matched_count(ls)) as u32, matched_lines(ls)))
    }
}

proof fn lemma_digit_end_props(s: Seq<char>, i: int)
    requires
        0 <= i <= s.len(),
    ensures
        i <= digit_end(s, i) <= s.len(),
        forall|j: int| i <= j < digit_end(s, i) ==> is_digit(#[trigger] s[j]),
    decreases s.len() - i,
{
    if i < s.len() && is_digit(s[i]) {
        lemma_digit_end_props(s, i + 1);
    }
}

proof fn lemma_first_colon_from_found(s: Seq<char>, c0: int, c: int)
    requires
        c0 <= c,
        colon_match(s, c),
        forall|x: int| c0 <= x < c ==> !colon_match(s, x),
    ensures
        first_colon_from(s, c0) == c,
    decreases c - c0,
{
    if c0 < c {
        lemma_first_colon_from_found(s, c0 + 1, c);
    }
}

proof fn lemma_first_nl_at(s: Seq<char>, k: int)
    requires
        0 <= k <= s.len(),
        forall|j: int| 0 <= j < k ==> s[j] != '\n',
        k < s.len() ==> s[k] == '\n',
    ensures
        first_nl(s) == k,
    decreases k,
{
    if k > 0 {
        lemma_first_nl_at(s.drop_first(), k - 1);
        assert(forall|j: int| 0 <= j < k - 1 ==> s.drop_first()[j] == s[j + 1]);
    }
}

proof fn lemma_pct_sum_bound(ls: Seq<Seq<char>>)
    requires
        pcts_fit(ls),
    ensures
        pct_sum(ls) <= matched_count(ls) * (u32::MAX as nat),
    decreases ls.len(),
{
    if ls.len() > 0 {
        assert(pcts_fit(ls.drop_first())) by {
            assert(forall|k: int| 0 <= k < ls.drop_first().len()
                ==> #[trigger] ls.drop_first()[k] == ls[k + 1]);
        }
        lemma_pct_sum_bound(ls.drop_first());
        if line_matches(ls[0]) {
            assert(line_pct(ls[0]) <= u32::MAX);
        }
    }
}

/// Scans forward from `i` to the first non-digit character.
fn digit_end_exec(v: &Vec<char>, i: usize) -> (e: usize)
    requires
        i <= v@.len(),
    ensures
        e as int == digit_end(v@, i as int),
        i <= e <= v@.len(),
{
    let n = v.len();
    let mut e = i;
    while e < n && '0' <= v[e] && v[e] <= '9'
        invariant
            i <= e <= n,
            n == v@.len(),
            digit_end(v@, i as int) == digit_end(v@, e as int),
        decreases n - e,
    {
        proof {
            assert(digit_end(v@, e as int) == digit_end(v@, e + 1));
        }
        e = e + 1;
    }
    proof {
        assert(digit_end(v@, e as int) == e as int);
    }
    e
}

/// Scans forward from `i` to the first non-whitespace character.
fn space_end_exec(v: &Vec<char>, i: usize) -> (e: usize)
    requires
        i <= v@.len(),
    ensures
        e as int == space_end(v@, i as int),
        i <= e <= v@.len(),
{
    let n = v.len();
    let mut e = i;
    while e < n && is_space_exec(v[e])
        invariant
            i <= e <= n,
            n == v@.len(),
            space_end(v@, i as int) == space_end(v@, e as int),
        decreases n - e,
    {
        proof {
            assert(space_end(v@, e as int) == space_end(v@, e + 1));
        }
        e = e + 1;
    }
    proof {
        assert(space_end(v@, e as int) == e as int);
    }
    e
}

/// Scans forward from `i` past digits and dots.
fn frac_end_exec(v: &Vec<char>, i: usize) -> (e: usize)
    requires
        i <= v@.len(),
    ensures
        e as int == frac_end(v@, i as int),
        i <= e <= v@.len(),
{
    let n = v.len();
    let mut e = i;
    while e < n && ('0' <= v[e] && v[e] <= '9' || v[e] == '.')
        invariant
            i <= e <= n,
            n == v@.len(),
            frac_end(v@, i as int) == frac_end(v@, e as int),
        decreases n - e,
    {
        proof {
            assert(frac_end(v@, e as int) == frac_end(v@, e + 1));
        }
        e = e + 1;
    }
    proof {
        assert(frac_end(v@, e as int) == e as int);
    }
    e
}

/// Checks for the numeric tail of the channel pattern at `i` and returns
/// the bounds of its percentage digits.
fn tail_check(v: &Vec<char>, i: usize) -> (r: Option<(usize, usize)>)
    requires
        i <= v@.len(),
    ensures
        r is Some <==> tail_match(v@, i as int),
        r matches Some(p) ==> p.0 as int == tail_pct_lo(v@, i as int)
            && p.1 as int == tail_pct_hi(v@, i as int)
            && i <= p.0 <= p.1 <= v@.len(),
{
    let n = v.len();
    let e1 = digit_end_exec(v, i);
    if !(e1 > i) {
        return None;
    }
    if !(n >= 3 && e1 <= n - 3) {
        return None;
    }
    if !(v[e1] == ' ' && v[e1 + 1] == '/' && v[e1 + 2] == ' ') {
        return None;
    }
    let w = space_end_exec(v, e1 + 3);
    let e2 = digit_end_exec(v, w);
    if !(e2 > w) {
        return None;
    }
    if !(e2 < n && v[e2] == '%') {
        return None;
    }
    if !(n >= 4 && e2 <= n - 4) {
        return None;
    }
    if !(v[e2 + 1] == ' ' && v[e2 + 2] == '/' && v[e2 + 3] == ' ') {
        return None;
    }
    let mut m = e2 + 4;
    if m < n && v[m] == '-' {
        m = m + 1;
    }
    let e3 = frac_end_exec(v, m);
    if !(e3 > m) {
        return None;
    }
    if !(n >= 3 && e3 <= n - 3) {
        return None;
    }
    if !(v[e3] == ' ' && v[e3 + 1] == 'd' && v[e3 + 2] == 'B') {
        return None;
    }
    Some((w, e2))
}

/// Decides whether one line is a channel line and, if so, parses its
/// percentage; a percentage beyond the percentage type is the report
/// error, not a silent skip.
fn match_line(v: &Vec<char>) -> (r: Result<Option<u32>, VolumeError>)
    ensures
        match r {
            Ok(None) => !line_matches(v@),
            Ok(Some(p)) => line_matches(v@) && p as nat == line_pct(v@)
                && line_pct(v@) <= u32::MAX,
            Err(e) => line_matches(v@) && line_pct(v@) > u32::MAX
                && e == VolumeError::PercentTooLarge,
        },
{
    let n = v.len();
    let mut c: usize = 1;
    while n >= 2 && c <= n - 2
        invariant
            1 <= c,
            n == v@.len(),
            forall|x: int| 1 <= x < c ==> !colon_match(v@, x),
        decreases n - c,
    {
        if v[c] == ':' && v[c + 1] == ' ' && !is_space_exec(v[c - 1]) {
            match tail_check(v, c + 2) {
                Some((w, e2)) => {
                    proof {
                        assert(colon_match(v@, c as int));
                        assert(line_matches(v@));
                        lemma_first_colon_from_found(v@, 1, c as int);
                        lemma_digit_end_props(v@, w as int);
                        assert(all_digits(v@.subrange(w as int, e2 as int))) by {
                            assert(forall|j: int| w <= j < e2 ==> is_digit(#[trigger] v@[j]));
                            assert(forall|j: int| 0 <= j < e2 - w
                                ==> #[trigger] v@.subrange(w as int, e2 as int)[j] == v@[w + j]);
                        }
                        assert(line_pct(v@) == digits_val(v@.subrange(w as int, e2 as int)));
                    }
                    match parse_decimal(v, w, e2, 0xffff_ffff) {
                        Some(p) => {
                            return Ok(Some(p as u32));
                        }
                        None => {
                            return Err(VolumeError::PercentTooLarge);
                        }
                    }
                }
                None => {}
            }
        }
        proof {
            assert(!colon_match(v@, c as int));
        }
        c = c + 1;
    }
    proof {
        assert forall|x: int| !colon_match(v@, x) by {
            if 1 <= x < c {
            } else if x < 1 {
                assert(!colon_match(v@, x));
            } else {
                assert(x + 2 > n);
            }
        }
        assert(!line_matches(v@));
    }
    Ok(None)
}

/// Splits the report into the bounds of its lines.
#[verifier::loop_isolation(false)]
fn split_lines(v: &Vec<char>) -> (bounds: Vec<(usize, usize)>)
    ensures
        bounds@.map_values(|b: (usize, usize)| v@.subrange(b.0 as int, b.1 as int))
            == lines(v@),
        forall|k: int| 0 <= k < bounds@.len()
            ==> (#[trigger] bounds@[k]).0 <= bounds@[k].1 && bounds@[k].1 <= v@.len(),
{
    let ghost f = |b: (usize, usize)| v@.subrange(b.0 as int, b.1 as int);
    let n = v.len();
    let mut bounds: Vec<(usize, usize)> = Vec::new();
    let mut line_start: usize = 0;
    let mut i: usize = 0;
    proof {
        assert(v@.subrange(0, n as int) =~= v@);
        assert(Seq::<(usize, usize)>::empty().map_values(f) =~= Seq::<Seq<char>>::empty());
        assert(Seq::<Seq<char>>::empty() + lines(v@) =~= lines(v@));
    }
    while i < n
        invariant
            line_start <= i <= n,
            n == v@.len(),
            forall|j: int| line_start <= j < i ==> v@[j] != '\n',
            forall|k: int| 0 <= k < bounds@.len()
                ==> (#[trigger] bounds@[k]).0 <= bounds@[k].1 && bounds@[k].1 <= v@.len(),
            lines(v@) == bounds@.map_values(f)
                + lines(v@.subrange(line_start as int, n as int)),
        decreases n - i,
    {
        if v[i] == '\n' {
            proof {
                let rem = v@.subrange(line_start as int, n as int);
                assert(forall|j: int| 0 <= j < i - line_start
                    ==> #[trigger] rem[j] == v@[line_start + j]);
                assert(rem[i - line_start] == '\n');
                lemma_first_nl_at(rem, i - line_start);
                assert(rem.take(i - line_start) =~= v@.subrange(line_start as int, i as int));
                assert(rem.skip(i - line_start + 1) =~= v@.subrange(i + 1, n as int));
                assert(lines(rem) == seq![v@.subrange(line_start as int, i as int)]
                    + lines(v@.subrange(i + 1, n as int)));
                bounds@.lemma_push_map_commute(f, (line_start, i));
                assert(bounds@.push((line_start, i)).map_values(f)
                    =~= bounds@.map_values(f).push(v@.subrange(line_start as int, i as int)));
                assert(bounds@.map_values(f).push(v@.subrange(line_start as int, i as int))
                    + lines(v@.subrange(i + 1, n as int))
                    =~= bounds@.map_values(f) + lines(rem));
            }
            bounds.push((line_start, i));
            line_start = i + 1;
        }
        i = i + 1;
    }
    proof {
        let rem = v@.subrange(line_start as int, n as int);
        assert(forall|j: int| 0 <= j < rem.len() ==> #[trigger] rem[j] == v@[line_start + j]);
        lemma_first_nl_at(rem, rem.len() as int);
        assert(lines(rem) == seq![rem]);
        bounds@.lemma_push_map_commute(f, (line_start, n));
        assert(bounds@.push((line_start, n)).map_values(f)
            =~= bounds@.map_values(f).push(rem));
        assert(bounds@.map_values(f).push(rem) =~= bounds@.map_values(f) + lines(rem));
    }
    bounds.push((line_start, n));
    bounds
}

/// Parses the volume report: every channel line verbatim, and the
/// integer-truncated average of the channel percentages.
#[verifier::loop_isolation(false)]
pub fn parse_volume(vol: &str) -> (r: Result<(u32, Vec<String>), VolumeError>)
    ensures
        match r {
            Ok(p) => volume_spec(vol@)
                == Ok::<(u32, Seq<Seq<char>>), VolumeError>(
                    (p.0, p.1@.map_values(|c: String| c@)),
                ),
            Err(e) => volume_spec(vol@) == Err::<(u32, Seq<Seq<char>>), VolumeError>(e),
        },
{
    let ghost dv = |c: String| c@;
    let chars = to_chars(vol);
    let bounds = split_lines(&chars);
    let ghost ls = lines(vol@);
    let nb = bounds.len();
    let mut total: u128 = 0;
    let mut count: usize = 0;
    let mut descs: Vec<String> = Vec::new();
    let mut k: usize = 0;
    proof {
        assert(ls.skip(0) =~= ls);
        assert(descs@.map_values(dv) =~= Seq::<Seq<char>>::empty());
        assert(Seq::<Seq<char>>::empty() + matched_lines(ls) =~= matched_lines(ls));
    }
    while k < nb
        invariant
            k <= nb,
            nb == bounds@.len(),
            chars@ == vol@,
            ls == lines(vol@),
            nb == ls.len(),
            forall|x: int| 0 <= x < nb
                ==> (#[trigger] bounds@[x]).0 <= bounds@[x].1 && bounds@[x].1 <= vol@.len(),
            forall|x: int| 0 <= x < nb
                ==> vol@.subrange((#[trigger] bounds@[x]).0 as int, bounds@[x].1 as int)
                    == ls[x],
            count <= k,
            matched_count(ls) == count + matched_count(ls.skip(k as int)),
            pct_sum(ls) == total + pct_sum(ls.skip(k as int)),
            matched_lines(ls) == descs@.map_values(dv) + matched_lines(ls.skip(k as int)),
            total <= count * (u32::MAX as u128),
            forall|x: int| 0 <= x < k && line_matches(#[trigger] ls[x])
                ==> line_pct(ls[x]) <= u32::MAX,
        decreases nb - k,
    {
        let lo = bounds[k].0;
        let hi = bounds[k].1;
        let mut buf: Vec<char> = Vec::new();
        let mut j = lo;
        while j < hi
            invariant
                lo <= j <= hi <= chars@.len(),
                buf@ == chars@.subrange(lo as int, j as int),
            decreases hi - j,
        {
            let c = chars[j];
            buf.push(c);
            proof {
                assert(buf@ =~= chars@.subrange(lo as int, j + 1));
            }
            j = j + 1;
        }
        proof {
            assert(buf@ == ls[k as int]);
            assert(ls.skip(k as int)[0] == ls[k as int]);
            assert(ls.skip(k as int).drop_first() =~= ls.skip(k + 1));
        }
        match match_line(&buf) {
            Err(_) => {
                proof {
                    assert(matched_count(ls.skip(k as int)) >= 1);
                    assert(!pcts_fit(ls));
                }
                return Err(VolumeError::PercentTooLarge);
            }
            Ok(None) => {
                proof {
                    assert(matched_count(ls.skip(k as int))
                        == matched_count(ls.skip(k + 1)));
                    assert(pct_sum(ls.skip(k as int)) == pct_sum(ls.skip(k + 1)));
                    assert(matched_lines(ls.skip(k as int))
                        =~= matched_lines(ls.skip(k + 1)));
                }
            }
            Ok(Some(p)) => {
                let d = vol.substring_char(lo, hi).to_owned();
                proof {
                    assert(d@ == ls[k as int]);
                    assert(matched_lines(ls.skip(k as int))
                        =~= seq![ls[k as int]] + matched_lines(ls.skip(k + 1)));
                    descs@.lemma_push_map_commute(dv, d);
                    assert(descs@.push(d).map_values(dv)
                        =~= descs@.map_values(dv).push(ls[k as int]));
                    assert(descs@.map_values(dv).push(ls[k as int])
                        + matched_lines(ls.skip(k + 1))
                        =~= descs@.map_values(dv)
                            + (seq![ls[k as int]] + matched_lines(ls.skip(k + 1))));
                }
                descs.push(d);
                total = total + p as u128;
                count = count + 1;
            }
        }
        k = k + 1;
    }
    proof {
        assert(ls.skip(nb as int) =~= Seq::<Seq<char>>::empty());
        assert(matched_count(ls) == count);
        assert(pct_sum(ls) == total);
        assert(matched_lines(ls) =~= descs@.map_values(dv));
    }
    if count == 0 {
        return Err(VolumeError::NoChannels);
    }
    proof {
        assert(pcts_fit(ls));
        lemma_pct_sum_bound(ls);
        lemma_div_is_ordered(
            total as int,
            count * (u32::MAX as u128) as int,
            count as int,
        );
        lemma_div_by_multiple(u32::MAX as int, count as int);
        assert(total as int / (count as int) <= u32::MAX);
    }
    let avg128 = total / (count as u128);
    let avg = avg128 as u32;
    Ok((avg, descs))
}

/// The channel percentages of a report, in channel order.
pub open spec fn matched_pcts(ls: Seq<Seq<char>>) -> Seq<nat>
    decreases ls.len(),
{
    if ls.len() == 0 {
        Seq::empty()
    } else {
        (if line_matches(ls[0]) { seq![line_pct(ls[0])] } else { Seq::<nat>::empty() })
            + matched_pcts(ls.drop_first())
    }
}

/// The sum of a sequence of numbers.
pub open spec fn sum_nat(s: Seq<nat>) -> nat
    decreases s.len(),
{
    if s.len() == 0 {
        0
    } else {
        s[0] + sum_nat(s.drop_first())
    }
}

proof fn lemma_matched_pcts_props(ls: Seq<Seq<char>>)
    ensures
        matched_pcts(ls).len() == matched_count(ls),
        sum_nat(matched_pcts(ls)) == pct_sum(ls),
    decreases ls.len(),
{
    if ls.len() > 0 {
        lemma_matched_pcts_props(ls.drop_first());
        if line_matches(ls[0]) {
            let rest = matched_pcts(ls.drop_first());
            let whole = seq![line_pct(ls[0])] + rest;
            assert(whole[0] == line_pct(ls[0]));
            assert(whole.drop_first() =~= rest);
        } else {
            assert(Seq::<nat>::empty() + matched_pcts(ls.drop_first())
                =~= matched_pcts(ls.drop_first()));
        }
    }
}

proof fn lemma_sum_nat_pointwise_le(a: Seq<nat>, b: Seq<nat>)
    requires
        a.len() == b.len(),
        forall|i: int| 0 <= i < a.len() ==> a[i] <= b[i],
    ensures
        sum_nat(a) <= sum_nat(b),
    decreases a.len(),
{
    if a.len() > 0 {
        assert(forall|i: int| 0 <= i < a.drop_first().len()
            ==> #[trigger] a.drop_first()[i] == a[i + 1]);
        assert(forall|i: int| 0 <= i < b.drop_first().len()
            ==> #[trigger] b.drop_first()[i] == b[i + 1]);
        lemma_sum_nat_pointwise_le(a.drop_first(), b.drop_first());
    }
}

/// Law: the aggregate percentage is monotone in the channels.  For two
/// reports with the same channels, if every channel's percentage in the
/// second report is at least the one in the first — as a step-up request
/// yields when the mixer raises every channel, and a step-down request
/// yields with the reports swapped — then the integer-truncated average
/// of the second report is at least the one of the first.
pub proof fn lemma_average_monotone(before: Seq<char>, after: Seq<char>)
    requires
        matched_pcts(lines(before)).len() == matched_pcts(lines(after)).len(),
        matched_pcts(lines(before)).len() > 0,
        forall|i: int| 0 <= i < matched_pcts(lines(before)).len()
            ==> matched_pcts(lines(before))[i] <= matched_pcts(lines(after))[i],
    ensures
        pct_sum(lines(before)) / matched_count(lines(before))
            <= pct_sum(lines(after)) / matched_count(lines(after)),
{
    lemma_matched_pcts_props(lines(before));
    lemma_matched_pcts_props(lines(after));
    lemma_sum_nat_pointwise_le(matched_pcts(lines(before)), matched_pcts(lines(after)));
    lemma_div_is_ordered(
        pct_sum(lines(before)) as int,
        pct_sum(lines(after)) as int,
        matched_count(lines(before)) as int,
    );
}

/// Law: a monotone mixer yields a monotone aggregate.  When both reports
/// parse and the second one's channel percentages are channel-for-channel
/// at least the first one's — which is what a step-up request yields from
/// a mixer that raises every channel, and what a step-down request yields
/// with the two reports swapped — then the aggregate percentage the
/// parser returns for the second report is at least the one it returns
/// for the first.
pub proof fn lemma_parsed_average_monotone(before: Seq<char>, after: Seq<char>)
    requires
        volume_spec(before) is Ok,
        volume_spec(after) is Ok,
        matched_pcts(lines(before)).len() == matched_pcts(lines(after)).len(),
        forall|i: int| 0 <= i < matched_pcts(lines(before)).len()
            ==> matched_pcts(lines(before))[i] <= matched_pcts(lines(after))[i],
    ensures
        volume_spec(before)->Ok_0.0 <= volume_spec(after)->Ok_0.0,
{
    lemma_matched_pcts_props(lines(before));
    lemma_matched_pcts_props(lines(after));
    lemma_average_monotone(before, after);
    lemma_pct_sum_bound(lines(before));
    lemma_pct_sum_bound(lines(after));
    lemma_div_is_ordered(
        pct_sum(lines(before)) as int,
        matched_count(lines(before)) * (u32::MAX as nat) as int,
        matched_count(lines(before)) as int,
    );
    lemma_div_is_ordered(
        pct_sum(lines(after)) as int,
        matched_count(lines(after)) * (u32::MAX as nat) as int,
        matched_count(lines(after)) as int,
    );
    lemma_div_by_multiple(u32::MAX as int, matched_count(lines(before)) as int);
    lemma_div_by_multiple(u32::MAX as int, matched_count(lines(after)) as int);
}

} // verus!
