use vstd::prelude::*;

use crate::utils::{split_sep, lemma_split_sep_step, lemma_split_sep_whole};
use vstd::utf8::valid_utf8;

verus! {

// A kernel image is scanned as raw bytes: the NUL-separated pieces are the
// candidate strings, and the two patterns below are matched against each
// candidate.
pub open spec fn is_digit(b: u8) -> bool {
    0x30 <= b <= 0x39
}

/// Printable ASCII or the space character.
pub open spec fn is_printable(b: u8) -> bool {
    0x20 <= b <= 0x7e
}

pub open spec fn all_printable(c: Seq<u8>) -> bool {
    forall|k: int| 0 <= k < c.len() ==> is_printable(#[trigger] c[k])
}

/// The end of the run of decimal digits that starts at `i`.
pub open spec fn digits_end(c: Seq<u8>, i: int) -> int
    decreases c.len() - i when 0 <= i <= c.len()
{
    if i < c.len() && is_digit(c[i]) {
        digits_end(c, i + 1)
    } else {
        i
    }
}

pub proof fn lemma_digits_end(c: Seq<u8>, i: int)
    requires
        0 <= i <= c.len(),
    ensures
        i <= digits_end(c, i) <= c.len(),
        forall|k: int| i <= k < digits_end(c, i) ==> is_digit(#[trigger] c[k]),
        digits_end(c, i) < c.len() ==> !is_digit(c[digits_end(c, i)]),
    decreases c.len() - i,
{
    if i < c.len() && is_digit(c[i]) {
        lemma_digits_end(c, i + 1);
    }
}

/// The end of a version token: the digit run ending at `j` extended by
/// every following group of a dot and at least one digit.
pub open spec fn token_end(c: Seq<u8>, j: int) -> int
    decreases c.len() - j when 0 <= j <= c.len()
    via token_end_decreases
{
    if j + 1 < c.len() && c[j] == 0x2e && is_digit(c[j + 1]) {
        token_end(c, digits_end(c, j + 2))
    } else {
        j
    }
}

#[via_fn]
proof fn token_end_decreases(c: Seq<u8>, j: int) {
    if j + 1 < c.len() && c[j] == 0x2e && is_digit(c[j + 1]) {
        lemma_digits_end(c, j + 2);
    }
}

pub proof fn lemma_token_end_bounds(c: Seq<u8>, j: int)
    requires
        0 <= j <= c.len(),
    ensures
        j <= token_end(c, j) <= c.len(),
    decreases c.len() - j,
{
    if j + 1 < c.len() && c[j] == 0x2e && is_digit(c[j + 1]) {
        lemma_digits_end(c, j + 2);
        lemma_token_end_bounds(c, digits_end(c, j + 2));
    }
}

/// The bytes of the literal `android`.
pub open spec fn android_lit() -> Seq<u8> {
    seq![0x61u8, 0x6eu8, 0x64u8, 0x72u8, 0x6fu8, 0x69u8, 0x64u8]
}

/// `android` followed by at least one digit stands at `k`.
pub open spec fn android_at(c: Seq<u8>, k: int) -> bool {
    &&& 0 <= k
    &&& k + 8 <= c.len()
    &&& c.subrange(k, k + 7) == android_lit()
    &&& is_digit(c[k + 7])
}

/// The first `android<digits>` at or after `j` that only non-space bytes
/// separate from `j`; `None` when a space or the end comes first.
pub open spec fn find_android(c: Seq<u8>, j: int) -> Option<int>
    decreases c.len() - j when 0 <= j <= c.len()
{
    if j >= c.len() {
        None
    } else if android_at(c, j) {
        Some(j)
    } else if c[j] != 0x20 {
        find_android(c, j + 1)
    } else {
        None
    }
}

pub proof fn lemma_find_android_bounds(c: Seq<u8>, j: int)
    requires
        0 <= j <= c.len(),
    ensures
        find_android(c, j) matches Some(k) ==> j <= k && android_at(c, k),
    decreases c.len() - j,
{
    if j < c.len() && !android_at(c, j) && c[j] != 0x20 {
        lemma_find_android_bounds(c, j + 1);
    }
}

/// The version token starting at `i`, if one does: its end, one past the
/// last digit.  A token is digits, then at least one group of a dot and
/// digits.
pub open spec fn kmi_token_at(c: Seq<u8>, i: int) -> Option<int> {
    if 0 <= i < c.len() && is_digit(c[i]) {
        let d = digits_end(c, i);
        let j = token_end(c, d);
        if j > d {
            Some(j)
        } else {
            None
        }
    } else {
        None
    }
}

/// The KMI composed from a match that starts at `i`: the `android<digits>`
/// part, a dash, then the version token.
pub open spec fn kmi_at(c: Seq<u8>, i: int) -> Option<Seq<u8>> {
    match kmi_token_at(c, i) {
        Some(j) => match find_android(c, j) {
            Some(k) => Some(
                c.subrange(k, digits_end(c, k + 7)) + seq![0x2du8] + c.subrange(i, j),
            ),
            None => None,
        },
        None => None,
    }
}

/// The KMI of the leftmost match at or after `i`.
pub open spec fn chunk_kmi_from(c: Seq<u8>, i: int) -> Option<Seq<u8>>
    decreases c.len() - i when 0 <= i <= c.len()
{
    if i >= c.len() {
        None
    } else if kmi_at(c, i) is Some {
        kmi_at(c, i)
    } else {
        chunk_kmi_from(c, i + 1)
    }
}

/// The KMI of the last match whose token follows a space, among
/// positions below `i`.
pub open spec fn last_spaced_kmi(c: Seq<u8>, i: int) -> Option<Seq<u8>>
    decreases i when 0 <= i <= c.len()
{
    if i <= 1 {
        None
    } else if c[i - 2] == 0x20 && kmi_at(c, i - 1) is Some {
        kmi_at(c, i - 1)
    } else {
        last_spaced_kmi(c, i - 1)
    }
}

/// The KMI a candidate string yields: only an entirely printable
/// candidate is searched.  A greedy leading context gives matches that
/// follow a space the precedence, latest first; only a candidate
/// without any such match falls back to the leftmost match anywhere.
pub open spec fn chunk_kmi(c: Seq<u8>) -> Option<Seq<u8>> {
    if all_printable(c) {
        match last_spaced_kmi(c, c.len() as int) {
            Some(v) => Some(v),
            None => chunk_kmi_from(c, 0),
        }
    } else {
        None
    }
}

/// The bytes of the literal `Linux version `.
pub open spec fn lv_lit() -> Seq<u8> {
    seq![
        0x4cu8, 0x69u8, 0x6eu8, 0x75u8, 0x78u8, 0x20u8, 0x76u8, 0x65u8, 0x72u8, 0x73u8,
        0x69u8, 0x6fu8, 0x6eu8, 0x20u8,
    ]
}

pub open spec fn lv_at(c: Seq<u8>, i: int) -> bool {
    &&& 0 <= i
    &&& i + 14 <= c.len()
    &&& c.subrange(i, i + 14) == lv_lit()
}

/// The first position at or after `i` where `Linux version ` stands.
pub open spec fn find_lv(c: Seq<u8>, i: int) -> Option<int>
    decreases c.len() - i when 0 <= i
{
    if i + 14 > c.len() {
        None
    } else if lv_at(c, i) {
        Some(i)
    } else {
        find_lv(c, i + 1)
    }
}

/// The first newline at or after `i`, or the end.
pub open spec fn line_end(c: Seq<u8>, i: int) -> int
    decreases c.len() - i when 0 <= i <= c.len()
{
    if i < c.len() && c[i] != 0x0a {
        line_end(c, i + 1)
    } else {
        i
    }
}

pub proof fn lemma_line_end_bounds(c: Seq<u8>, i: int)
    requires
        0 <= i <= c.len(),
    ensures
        i <= line_end(c, i) <= c.len(),
    decreases c.len() - i,
{
    if i < c.len() && c[i] != 0x0a {
        lemma_line_end_bounds(c, i + 1);
    }
}

/// ASCII whitespace, as `char::is_whitespace` has it below 0x80.
pub open spec fn is_space_byte(b: u8) -> bool {
    b == 0x20 || (0x09 <= b <= 0x0d)
}

pub open spec fn trim_start(s: Seq<u8>) -> Seq<u8>
    decreases s.len(),
{
    if s.len() > 0 && is_space_byte(s[0]) {
        trim_start(s.drop_first())
    } else {
        s
    }
}

pub open spec fn trim_end(s: Seq<u8>) -> Seq<u8>
    decreases s.len(),
{
    if s.len() > 0 && is_space_byte(s[s.len() - 1]) {
        trim_end(s.drop_last())
    } else {
        s
    }
}

/// `s` with the whitespace taken off both ends.
pub open spec fn trim_bytes(s: Seq<u8>) -> Seq<u8> {
    trim_end(trim_start(s))
}

/// What a candidate yields for the kernel version: the trimmed line that
/// follows its first `Linux version `, when it is not empty and decodes.
pub open spec fn chunk_kv(c: Seq<u8>) -> Option<Seq<u8>> {
    match find_lv(c, 0) {
        Some(i) => {
            let t = trim_bytes(c.subrange(i + 14, line_end(c, i + 14)));
            if t.len() > 0 && valid_utf8(t) {
                Some(t)
            } else {
                None
            }
        },
        None => None,
    }
}

/// The KMI of the first candidate that yields one.
pub open spec fn scan_kmi_from(chunks: Seq<Seq<u8>>, i: int) -> Option<Seq<u8>>
    decreases chunks.len() - i when 0 <= i <= chunks.len()
{
    if i >= chunks.len() {
        None
    } else if chunk_kmi(chunks[i]) is Some {
        chunk_kmi(chunks[i])
    } else {
        scan_kmi_from(chunks, i + 1)
    }
}

/// The kernel version of the first candidate that yields one.
pub open spec fn scan_kv_from(chunks: Seq<Seq<u8>>, i: int) -> Option<Seq<u8>>
    decreases chunks.len() - i when 0 <= i <= chunks.len()
{
    if i >= chunks.len() {
        None
    } else if chunk_kv(chunks[i]) is Some {
        chunk_kv(chunks[i])
    } else {
        scan_kv_from(chunks, i + 1)
    }
}

/// The KMI recovered from a whole kernel image.
pub open spec fn image_kmi(data: Seq<u8>) -> Option<Seq<u8>> {
    scan_kmi_from(split_sep(data, 0u8), 0)
}

/// The kernel version recovered from a whole kernel image.
pub open spec fn image_kv(data: Seq<u8>) -> Option<Seq<u8>> {
    scan_kv_from(split_sep(data, 0u8), 0)
}

fn exec_digits_end(c: &Vec<u8>, i: usize) -> (r: usize)
    requires
        i <= c@.len(),
    ensures
        r == digits_end(c@, i as int),
        i <= r <= c@.len(),
{
    let mut j = i;
    while j < c.len() && 0x30 <= c[j] && c[j] <= 0x39
        invariant
            i <= j <= c@.len(),
            digits_end(c@, i as int) == digits_end(c@, j as int),
        decreases c@.len() - j,
    {
        j += 1;
    }
    j
}

fn exec_token_end(c: &Vec<u8>, j: usize) -> (r: usize)
    requires
        j <= c@.len(),
    ensures
        r == token_end(c@, j as int),
        j <= r <= c@.len(),
{
    let mut t = j;
    while t < c.len() && t + 1 < c.len() && c[t] == 0x2e && 0x30 <= c[t + 1] && c[t + 1] <= 0x39
        invariant
            j <= t <= c@.len(),
            token_end(c@, j as int) == token_end(c@, t as int),
        decreases c@.len() - t,
    {
        proof {
            lemma_digits_end(c@, t + 2);
        }
        t = exec_digits_end(c, t + 2);
    }
    t
}

fn exec_android_at(c: &Vec<u8>, k: usize) -> (r: bool)
    requires
        k <= c@.len(),
    ensures
        r == android_at(c@, k as int),
{
    if c.len() - k < 8 {
        return false;
    }
    let r = c[k] == 0x61 && c[k + 1] == 0x6e && c[k + 2] == 0x64 && c[k + 3] == 0x72 && c[k + 4]
        == 0x6f && c[k + 5] == 0x69 && c[k + 6] == 0x64 && 0x30 <= c[k + 7] && c[k + 7] <= 0x39;
    proof {
        let s = c@.subrange(k as int, k as int + 7);
        assert(s[0] == c@[k as int] && s[1] == c@[k as int + 1] && s[2] == c@[k as int + 2] && s[3]
            == c@[k as int + 3] && s[4] == c@[k as int + 4] && s[5] == c@[k as int + 5] && s[6]
            == c@[k as int + 6]);
        if r {
            assert(s =~= android_lit());
        } else {
            if android_at(c@, k as int) {
                assert(s == android_lit());
                assert(false);
            }
        }
    }
    r
}

fn exec_find_android(c: &Vec<u8>, j: usize) -> (r: Option<usize>)
    requires
        j <= c@.len(),
    ensures
        match r {
            Some(k) => find_android(c@, j as int) == Some(k as int) && android_at(c@, k as int),
            None => find_android(c@, j as int) is None,
        },
{
    let mut t = j;
    loop
        invariant
            j <= t <= c@.len(),
            find_android(c@, j as int) == find_android(c@, t as int),
        decreases c@.len() - t,
    {
        if t >= c.len() {
            return None;
        }
        if exec_android_at(c, t) {
            return Some(t);
        }
        if c[t] == 0x20 {
            return None;
        }
        t += 1;
    }
}

/// One attempted KMI match at position `i` of a candidate.
fn try_kmi_at(c: &Vec<u8>, i: usize) -> (r: Option<Vec<u8>>)
    requires
        i < c@.len(),
    ensures
        match r {
            Some(v) => kmi_at(c@, i as int) == Some(v@) && v@.len() > 0,
            None => kmi_at(c@, i as int) is None,
        },
        r matches Some(v) ==> forall|m: int|
            0 <= m < v@.len() ==> (v@[m] == 0x2d || exists|p: int|
                0 <= p < c@.len() && v@[m] == c@[p]),
{
    if !(0x30 <= c[i] && c[i] <= 0x39) {
        return None;
    }
    let d = exec_digits_end(c, i);
    let j = exec_token_end(c, d);
    if j <= d {
        return None;
    }
    match exec_find_android(c, j) {
        None => None,
        Some(k) => {
            let n = c.len();
            assert(k + 8 <= n);
            let e = exec_digits_end(c, k + 7);
            let mut out: Vec<u8> = Vec::new();
            let mut m = k;
            while m < e
                invariant
                    k <= m <= e,
                    e <= c@.len(),
                    out@ == c@.subrange(k as int, m as int),
                decreases e - m,
            {
                out.push(c[m]);
                proof {
                    assert(c@.subrange(k as int, m + 1) =~= c@.subrange(k as int, m as int).push(
                        c@[m as int],
                    ));
                }
                m += 1;
            }
            out.push(0x2d);
            let mut m = i;
            while m < j
                invariant
                    i <= m <= j,
                    j <= c@.len(),
                    e <= c@.len(),
                    k <= e,
                    out@ == c@.subrange(k as int, e as int) + seq![0x2du8] + c@.subrange(
                        i as int,
                        m as int,
                    ),
                decreases j - m,
            {
                out.push(c[m]);
                proof {
                    assert(c@.subrange(k as int, e as int) + seq![0x2du8] + c@.subrange(
                        i as int,
                        m + 1,
                    ) =~= (c@.subrange(k as int, e as int) + seq![0x2du8] + c@.subrange(
                        i as int,
                        m as int,
                    )).push(c@[m as int]));
                }
                m += 1;
            }
            proof {
                assert(out@ =~= c@.subrange(k as int, e as int) + seq![0x2du8] + c@.subrange(
                    i as int,
                    j as int,
                ));
                assert forall|m2: int| 0 <= m2 < out@.len() implies (out@[m2] == 0x2d || exists|
                    p: int,
                |
                    0 <= p < c@.len() && out@[m2] == c@[p]) by {
                    let front = c@.subrange(k as int, e as int);
                    if m2 < front.len() {
                        assert(out@[m2] == c@[k + m2]);
                    } else if m2 > front.len() {
                        assert(out@[m2] == c@[i + (m2 - front.len() - 1)]);
                    }
                }
            }
            Some(out)
        },
    }
}

/// The KMI of one candidate string, when it has one.
pub fn find_kmi_in_chunk(c: &Vec<u8>) -> (r: Option<Vec<u8>>)
    ensures
        match r {
            Some(v) => chunk_kmi(c@) == Some(v@),
            None => chunk_kmi(c@) is None,
        },
        r matches Some(v) ==> forall|m: int| 0 <= m < v@.len() ==> is_printable(#[trigger] v@[m]),
{
    let mut i: usize = 0;
    while i < c.len()
        invariant
            i <= c@.len(),
            forall|m: int| 0 <= m < i ==> is_printable(#[trigger] c@[m]),
        decreases c@.len() - i,
    {
        if !(0x20 <= c[i] && c[i] <= 0x7e) {
            assert(!all_printable(c@));
            return None;
        }
        i += 1;
    }
    assert(all_printable(c@));
    let mut i: usize = c.len();
    while i > 1
        invariant
            i <= c@.len(),
            all_printable(c@),
            last_spaced_kmi(c@, c@.len() as int) == last_spaced_kmi(c@, i as int),
        decreases i,
    {
        if c[i - 2] == 0x20 {
            match try_kmi_at(c, i - 1) {
                Some(v) => {
                    assert forall|m: int| 0 <= m < v@.len() implies is_printable(
                        #[trigger] v@[m],
                    ) by {
                        assert(is_printable(0x2du8));
                    }
                    return Some(v);
                },
                None => {},
            }
        }
        i -= 1;
    }
    assert(last_spaced_kmi(c@, c@.len() as int) is None);
    let mut i: usize = 0;
    while i < c.len()
        invariant
            i <= c@.len(),
            all_printable(c@),
            last_spaced_kmi(c@, c@.len() as int) is None,
            chunk_kmi_from(c@, 0) == chunk_kmi_from(c@, i as int),
        decreases c@.len() - i,
    {
        match try_kmi_at(c, i) {
            Some(v) => {
                assert forall|m: int| 0 <= m < v@.len() implies is_printable(
                    #[trigger] v@[m],
                ) by {
                    assert(is_printable(0x2du8));
                }
                return Some(v);
            },
            None => {},
        }
        i += 1;
    }
    None
}

fn exec_lv_at(c: &Vec<u8>, i: usize) -> (r: bool)
    requires
        i <= c@.len(),
    ensures
        r == lv_at(c@, i as int),
{
    if c.len() - i < 14 {
        return false;
    }
    let r = c[i] == 0x4c && c[i + 1] == 0x69 && c[i + 2] == 0x6e && c[i + 3] == 0x75 && c[i + 4]
        == 0x78 && c[i + 5] == 0x20 && c[i + 6] == 0x76 && c[i + 7] == 0x65 && c[i + 8] == 0x72
        && c[i + 9] == 0x73 && c[i + 10] == 0x69 && c[i + 11] == 0x6f && c[i + 12] == 0x6e && c[i
        + 13] == 0x20;
    proof {
        let s = c@.subrange(i as int, i as int + 14);
        assert(forall|m: int| 0 <= m < 14 ==> s[m] == c@[i + m]);
        assert(s[0] == c@[i as int] && s[1] == c@[i as int + 1] && s[2] == c@[i as int + 2] && s[3]
            == c@[i as int + 3] && s[4] == c@[i as int + 4] && s[5] == c@[i as int + 5] && s[6]
            == c@[i as int + 6] && s[7] == c@[i as int + 7] && s[8] == c@[i as int + 8] && s[9]
            == c@[i as int + 9] && s[10] == c@[i as int + 10] && s[11] == c@[i as int + 11] && s[12]
            == c@[i as int + 12] && s[13] == c@[i as int + 13]);
        if r {
            assert(s =~= lv_lit());
        } else {
            if lv_at(c@, i as int) {
                assert(s == lv_lit());
                assert(false);
            }
        }
    }
    r
}

fn exec_find_lv(c: &Vec<u8>) -> (r: Option<usize>)
    ensures
        match r {
            Some(i) => find_lv(c@, 0) == Some(i as int) && lv_at(c@, i as int),
            None => find_lv(c@, 0) is None,
        },
{
    let mut t: usize = 0;
    loop
        invariant
            t <= c@.len(),
            find_lv(c@, 0) == find_lv(c@, t as int),
        decreases c@.len() - t,
    {
        if c.len() - t < 14 {
            return None;
        }
        if exec_lv_at(c, t) {
            return Some(t);
        }
        t += 1;
    }
}

fn exec_line_end(c: &Vec<u8>, i: usize) -> (r: usize)
    requires
        i <= c@.len(),
    ensures
        r == line_end(c@, i as int),
        i <= r <= c@.len(),
{
    let mut j = i;
    while j < c.len() && c[j] != 0x0a
        invariant
            i <= j <= c@.len(),
            line_end(c@, i as int) == line_end(c@, j as int),
        decreases c@.len() - j,
    {
        j += 1;
    }
    j
}

proof fn lemma_trim_start_is(s: Seq<u8>, m: int)
    requires
        0 <= m <= s.len(),
        forall|k: int| 0 <= k < m ==> is_space_byte(#[trigger] s[k]),
        m < s.len() ==> !is_space_byte(s[m]),
    ensures
        trim_start(s) == s.skip(m),
    decreases m,
{
    if m == 0 {
        assert(s.skip(0) =~= s);
    } else {
        assert(is_space_byte(s[0]));
        lemma_trim_start_is(s.drop_first(), m - 1);
        assert(s.drop_first().skip(m - 1) =~= s.skip(m));
    }
}

proof fn lemma_trim_end_is(s: Seq<u8>, m: int)
    requires
        0 <= m <= s.len(),
        forall|k: int| m <= k < s.len() ==> is_space_byte(#[trigger] s[k]),
        m > 0 ==> !is_space_byte(s[m - 1]),
    ensures
        trim_end(s) == s.take(m),
    decreases s.len(),
{
    if s.len() > m {
        assert(is_space_byte(s[s.len() - 1]));
        lemma_trim_end_is(s.drop_last(), m);
        assert(s.drop_last().take(m) =~= s.take(m));
    } else {
        assert(s.take(m) =~= s);
    }
}

/// The window of `c` that `trim_bytes` leaves of `c[lo..hi]`.
fn exec_trim(c: &Vec<u8>, lo: usize, hi: usize) -> (r: (usize, usize))
    requires
        lo <= hi <= c@.len(),
    ensures
        lo <= r.0 <= r.1 <= hi,
        trim_bytes(c@.subrange(lo as int, hi as int)) == c@.subrange(r.0 as int, r.1 as int),
{
    let mut a = lo;
    while a < hi && (c[a] == 0x20 || (0x09 <= c[a] && c[a] <= 0x0d))
        invariant
            lo <= a <= hi <= c@.len(),
            forall|k: int| lo <= k < a ==> is_space_byte(#[trigger] c@[k]),
        decreases hi - a,
    {
        a += 1;
    }
    let mut b = hi;
    while b > a && (c[b - 1] == 0x20 || (0x09 <= c[b - 1] && c[b - 1] <= 0x0d))
        invariant
            lo <= a <= b <= hi <= c@.len(),
            forall|k: int| b <= k < hi ==> is_space_byte(#[trigger] c@[k]),
        decreases b,
    {
        b -= 1;
    }
    proof {
        let s = c@.subrange(lo as int, hi as int);
        assert(forall|k: int| 0 <= k < s.len() ==> s[k] == c@[lo + k]);
        lemma_trim_start_is(s, a - lo);
        assert(s.skip(a - lo) =~= c@.subrange(a as int, hi as int));
        let s2 = c@.subrange(a as int, hi as int);
        assert(forall|k: int| 0 <= k < s2.len() ==> s2[k] == c@[a + k]);
        lemma_trim_end_is(s2, b - a);
        assert(s2.take(b - a) =~= c@.subrange(a as int, b as int));
    }
    (a, b)
}

/// The kernel version of one candidate string, when it has one.
pub fn find_kv_in_chunk(c: &Vec<u8>) -> (r: Option<String>)
    ensures
        match r {
            Some(s) => chunk_kv(c@) matches Some(t) && s@ == vstd::utf8::decode_utf8(t),
            None => chunk_kv(c@) is None,
        },
{
    match exec_find_lv(c) {
        None => None,
        Some(i) => {
            let n = c.len();
            assert(i + 14 <= n);
            let le = exec_line_end(c, i + 14);
            let (a, b) = exec_trim(c, i + 14, le);
            if a == b {
                assert(c@.subrange(a as int, b as int) =~= Seq::<u8>::empty());
                return None;
            }
            let mut t: Vec<u8> = Vec::new();
            let mut m = a;
            while m < b
                invariant
                    a <= m <= b,
                    b <= c@.len(),
                    t@ == c@.subrange(a as int, m as int),
                decreases b - m,
            {
                t.push(c[m]);
                proof {
                    assert(c@.subrange(a as int, m + 1) =~= c@.subrange(a as int, m as int).push(
                        c@[m as int],
                    ));
                }
                m += 1;
            }
            crate::utils::string_from_utf8(t)
        },
    }
}

/// Splits a kernel image into its NUL-separated candidate strings.
pub fn split_nul(data: &Vec<u8>) -> (r: Vec<Vec<u8>>)
    ensures
        r@.len() == split_sep(data@, 0u8).len(),
        forall|i: int| 0 <= i < r@.len() ==> r@[i]@ == split_sep(data@, 0u8)[i],
{
    let ghost whole = split_sep(data@, 0u8);
    let mut out: Vec<Vec<u8>> = Vec::new();
    let mut cur: Vec<u8> = Vec::new();
    let ghost mut start: int = 0;
    let mut i: usize = 0;
    proof {
        assert(data@.skip(0) =~= data@);
    }
    while i < data.len()
        invariant
            0 <= start <= i <= data@.len(),
            cur@ == data@.subrange(start, i as int),
            forall|k: int| start <= k < i ==> data@[k] != 0u8,
            whole == split_sep(data@, 0u8),
            whole.len() == out@.len() + split_sep(data@.skip(start), 0u8).len(),
            forall|k: int| 0 <= k < out@.len() ==> whole[k] == out@[k]@,
            forall|k: int|
                0 <= k < split_sep(data@.skip(start), 0u8).len() ==> whole[out@.len() + k]
                    == split_sep(data@.skip(start), 0u8)[k],
        decreases data@.len() - i,
    {
        if data[i] == 0 {
            proof {
                let rest = data@.skip(start);
                assert(forall|m: int| 0 <= m < rest.len() ==> rest[m] == data@[start + m]);
                lemma_split_sep_step(rest, 0u8, i - start);
                assert(rest.take(i - start) =~= data@.subrange(start, i as int));
                assert(rest.skip(i - start + 1) =~= data@.skip(i + 1));
                assert(split_sep(rest, 0u8) == seq![cur@] + split_sep(data@.skip(i + 1), 0u8));
            }
            let ghost out0 = out@;
            let ghost cur0 = cur@;
            out.push(cur);
            cur = Vec::new();
            proof {
                let tail = split_sep(data@.skip(start), 0u8);
                let tail2 = split_sep(data@.skip(i + 1), 0u8);
                assert(tail == seq![cur0] + tail2);
                assert(tail[0] == cur0);
                assert(forall|k: int| 0 <= k < tail2.len() ==> tail[k + 1] == tail2[k]);
                assert(out@.len() == out0.len() + 1);
                assert(out@[out0.len() as int]@ == cur0);
                assert forall|k: int| 0 <= k < out@.len() implies whole[k] == out@[k]@ by {
                    if k < out0.len() {
                        assert(out@[k] == out0[k]);
                    } else {
                        assert(out@[k]@ == cur0);
                        assert(whole[out0.len() as int + 0] == tail[0]);
                    }
                }
                assert forall|k: int| 0 <= k < tail2.len() implies whole[out@.len() + k]
                    == tail2[k] by {
                    assert(whole[out0.len() as int + (k + 1)] == tail[k + 1]);
                }
                start = i + 1;
                assert(cur@ =~= data@.subrange(start, i + 1));
            }
        } else {
            cur.push(data[i]);
            proof {
                assert(data@.subrange(start, i + 1) =~= data@.subrange(start, i as int).push(
                    data@[i as int],
                ));
            }
        }
        i += 1;
    }
    proof {
        let rest = data@.skip(start);
        assert(forall|m: int| 0 <= m < rest.len() ==> rest[m] == data@[start + m]);
        lemma_split_sep_whole(rest, 0u8);
        assert(rest =~= data@.subrange(start, data@.len() as int));
        assert(split_sep(data@.skip(start), 0u8)[0] == rest);
    }
    out.push(cur);
    out
}

/// Why no metadata could be recovered from a kernel image.
#[derive(Clone, Copy, Debug, PartialEq, Eq, Structural)]
pub enum KmiError {
    KmiMissing,
    KernelVersionMissing,
    BothMissing,
}

impl KmiError {
    /// The message shown for this failure.
    pub fn message(&self) -> (r: &'static str)
        ensures
            r@ == self.spec_message(),
    {
        match self {
            KmiError::KmiMissing => "Can't parse kmi from boot.img",
            KmiError::KernelVersionMissing => "Can't parse kernel version from kernel",
            KmiError::BothMissing => "Can't parse kmi and kernel version from boot.img",
        }
    }

    pub open spec fn spec_message(&self) -> Seq<char> {
        match self {
            KmiError::KmiMissing => "Can't parse kmi from boot.img"@,
            KmiError::KernelVersionMissing => "Can't parse kernel version from kernel"@,
            KmiError::BothMissing => "Can't parse kmi and kernel version from boot.img"@,
        }
    }
}

/// Recovers the KMI and the kernel version from the raw bytes of an
/// unpacked kernel image.  The image is split on NUL bytes; the first
/// candidate that yields a KMI and the first that yields a kernel version
/// decide the result, and the error tells which of the two was missing.
pub fn get_kmi(data: &Vec<u8>) -> (r: Result<(String, String), KmiError>)
    ensures
        match r {
            Ok(p) => {
                &&& image_kmi(data@) matches Some(kb) && p.0@ == crate::utils::ascii_chars_of(kb)
                &&& image_kv(data@) matches Some(vb) && p.1@ == vstd::utf8::decode_utf8(vb)
            },
            Err(e) => match e {
                KmiError::KmiMissing => image_kmi(data@) is None && image_kv(data@) is Some,
                KmiError::KernelVersionMissing => image_kmi(data@) is Some && image_kv(data@)
                    is None,
                KmiError::BothMissing => image_kmi(data@) is None && image_kv(data@) is None,
            },
        },
{
    let chunks = split_nul(data);
    let ghost cs = split_sep(data@, 0u8);
    let mut kmi: Option<Vec<u8>> = None;
    let mut kv: Option<String> = None;
    let mut i: usize = 0;
    while i < chunks.len() && (kmi.is_none() || kv.is_none())
        invariant
            i <= chunks@.len(),
            chunks@.len() == cs.len(),
            forall|k: int| 0 <= k < cs.len() ==> chunks@[k]@ == cs[k],
            cs == split_sep(data@, 0u8),
            match kmi {
                Some(v) => scan_kmi_from(cs, 0) == Some(v@) && (forall|m: int|
                    0 <= m < v@.len() ==> is_printable(#[trigger] v@[m])),
                None => scan_kmi_from(cs, 0) == scan_kmi_from(cs, i as int),
            },
            match kv {
                Some(s) => scan_kv_from(cs, 0) matches Some(t) && s@ == vstd::utf8::decode_utf8(
                    t,
                ),
                None => scan_kv_from(cs, 0) == scan_kv_from(cs, i as int),
            },
        decreases chunks@.len() - i,
    {
        if kmi.is_none() {
            match find_kmi_in_chunk(&chunks[i]) {
                Some(v) => {
                    kmi = Some(v);
                },
                None => {},
            }
        }
        if kv.is_none() {
            match find_kv_in_chunk(&chunks[i]) {
                Some(s) => {
                    kv = Some(s);
                },
                None => {},
            }
        }
        i += 1;
    }
    match (kmi, kv) {
        (Some(kb), Some(s)) => {
            let kmi_str = crate::utils::ascii_bytes_to_string(&kb);
            Ok((kmi_str, s))
        },
        (Some(_), None) => Err(KmiError::KernelVersionMissing),
        (None, Some(_)) => Err(KmiError::KmiMissing),
        (None, None) => Err(KmiError::BothMissing),
    }
}

} // verus!

