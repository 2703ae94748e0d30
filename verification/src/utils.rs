use vstd::prelude::*;
use vstd::utf8::{decode_utf8, valid_utf8};

verus! {

/// The index of the first occurrence of `sep`, or the length when absent.
pub open spec fn first_sep<T>(s: Seq<T>, sep: T) -> int
    decreases s.len(),
{
    if s.len() == 0 {
        0
    } else if s[0] == sep {
        0
    } else {
        1 + first_sep(s.drop_first(), sep)
    }
}

pub proof fn lemma_first_sep_bounds<T>(s: Seq<T>, sep: T)
    ensures
        0 <= first_sep(s, sep) <= s.len(),
        forall|m: int| 0 <= m < first_sep(s, sep) ==> s[m] != sep,
        first_sep(s, sep) < s.len() ==> s[first_sep(s, sep)] == sep,
    decreases s.len(),
{
    if s.len() != 0 && s[0] != sep {
        lemma_first_sep_bounds(s.drop_first(), sep);
        assert forall|m: int| 0 <= m < first_sep(s, sep) implies s[m] != sep by {
            if m > 0 {
                assert(s.drop_first()[m - 1] == s[m]);
            }
        }
    }
}

/// The first occurrence of `sep` is the position `k` before which none stands.
pub proof fn lemma_first_sep_is<T>(s: Seq<T>, sep: T, k: int)
    requires
        0 <= k <= s.len(),
        forall|m: int| 0 <= m < k ==> s[m] != sep,
        k < s.len() ==> s[k] == sep,
    ensures
        first_sep(s, sep) == k,
    decreases s.len(),
{
    if s.len() != 0 && s[0] != sep {
        assert(k != 0);
        assert(forall|m: int| 0 <= m < k - 1 ==> s.drop_first()[m] == s[m + 1] && s[m + 1] != sep);
        lemma_first_sep_is(s.drop_first(), sep, k - 1);
    }
}

/// The pieces of `s` between occurrences of `sep`, in order; an empty
/// input yields one empty piece, as `str::split` does.
pub open spec fn split_sep<T>(s: Seq<T>, sep: T) -> Seq<Seq<T>>
    decreases s.len(),
    via split_sep_decreases::<T>
{
    if first_sep(s, sep) == s.len() {
        seq![s]
    } else {
        seq![s.take(first_sep(s, sep))] + split_sep(s.skip(first_sep(s, sep) + 1), sep)
    }
}

#[via_fn]
proof fn split_sep_decreases<T>(s: Seq<T>, sep: T) {
    lemma_first_sep_bounds(s, sep);
}

/// Splitting steps past a first piece that ends at separator position `k`.
pub proof fn lemma_split_sep_step<T>(s: Seq<T>, sep: T, k: int)
    requires
        0 <= k < s.len(),
        s[k] == sep,
        forall|m: int| 0 <= m < k ==> s[m] != sep,
    ensures
        split_sep(s, sep) == seq![s.take(k)] + split_sep(s.skip(k + 1), sep),
{
    lemma_first_sep_is(s, sep, k);
}

/// A separator-free sequence is a single piece.
pub proof fn lemma_split_sep_whole<T>(s: Seq<T>, sep: T)
    requires
        forall|m: int| 0 <= m < s.len() ==> s[m] != sep,
    ensures
        split_sep(s, sep) == seq![s],
{
    lemma_first_sep_is(s, sep, s.len() as int);
}

/// Whether two string slices spell the same characters.
pub fn str_eq(a: &str, b: &str) -> (r: bool)
    ensures
        r == (a@ == b@),
{
    let na = a.unicode_len();
    let nb = b.unicode_len();
    if na != nb {
        return false;
    }
    let mut i: usize = 0;
    while i < na
        invariant
            i <= na,
            na == a@.len(),
            na == b@.len(),
            forall|k: int| 0 <= k < i ==> a@[k] == b@[k],
        decreases na - i,
    {
        let ca = a.get_char(i);
        let cb = b.get_char(i);
        if ca != cb {
            return false;
        }
        i += 1;
    }
    proof {
        assert(a@ =~= b@);
    }
    true
}

/// Decodes bytes into a string.
///
/// Relies on `String::from_utf8`: it succeeds exactly on UTF-8 encoded
/// bytes and returns the string those bytes spell.
#[verifier::external_body]
pub(crate) fn string_from_utf8(v: Vec<u8>) -> (r: Option<String>)
    ensures
        match r {
            Some(s) => valid_utf8(v@) && s@ == decode_utf8(v@),
            None => !valid_utf8(v@),
        },
{
    String::from_utf8(v).ok()
}

/// The characters that a sequence of ASCII bytes spells.
pub open spec fn ascii_chars_of(v: Seq<u8>) -> Seq<char> {
    v.map(|_i: int, b: u8| b as char)
}

/// Builds the string that a sequence of ASCII bytes spells.
pub fn ascii_bytes_to_string(v: &Vec<u8>) -> (r: String)
    requires
        forall|k: int| 0 <= k < v@.len() ==> v@[k] < 0x80,
    ensures
        r@ == ascii_chars_of(v@),
{
    let mut out = String::new();
    let mut i: usize = 0;
    while i < v.len()
        invariant
            i <= v@.len(),
            forall|k: int| 0 <= k < v@.len() ==> v@[k] < 0x80,
            out@ == ascii_chars_of(v@.take(i as int)),
        decreases v@.len() - i,
    {
        let b = v[i];
        push_char(&mut out, b as char);
        proof {
            assert(ascii_chars_of(v@.take(i + 1)) =~= ascii_chars_of(v@.take(i as int)).push(
                v@[i as int] as char,
            ));
        }
        i += 1;
    }
    proof {
        assert(v@.take(v@.len() as int) =~= v@);
    }
    out
}

/// Appends one character to a string.
///
/// Relies on `String::push`: appends the given `char` to the end of the
/// string (vstd gives `String::push` no specification).
#[verifier::external_body]
pub(crate) fn push_char(s: &mut String, c: char)
    ensures
        final(s)@ == old(s)@.push(c),
{
    s.push(c);
}

/// The characters that must be quoted in a MarkdownV2 chat message.
pub open spec fn needs_escape(c: char) -> bool {
    c == '-' || c == '.' || c == '(' || c == ')' || c == '+' || c == '#'
}

/// One character rendered with its escape, if it needs one.
pub open spec fn escaped_char(c: char) -> Seq<char> {
    if needs_escape(c) {
        seq!['\\', c]
    } else {
        seq![c]
    }
}

/// A whole string with every escapable character quoted.
pub open spec fn tg_escape(s: Seq<char>) -> Seq<char>
    decreases s.len(),
{
    if s.len() == 0 {
        Seq::empty()
    } else {
        escaped_char(s[0]) + tg_escape(s.drop_first())
    }
}

pub proof fn lemma_tg_escape_append(a: Seq<char>, b: Seq<char>)
    ensures
        tg_escape(a + b) == tg_escape(a) + tg_escape(b),
    decreases a.len(),
{
    if a.len() == 0 {
        assert(a + b =~= b);
        assert(tg_escape(a) + tg_escape(b) =~= tg_escape(b));
    } else {
        assert((a + b).drop_first() =~= a.drop_first() + b);
        lemma_tg_escape_append(a.drop_first(), b);
        assert(escaped_char(a[0]) + (tg_escape(a.drop_first()) + tg_escape(b)) =~= (escaped_char(
            a[0],
        ) + tg_escape(a.drop_first())) + tg_escape(b));
    }
}

/// Quotes the MarkdownV2 control characters of a message.
pub fn to_tg_md(s: String) -> (r: String)
    ensures
        r@ == tg_escape(s@),
{
    let st = s.as_str();
    let n = st.unicode_len();
    let mut out = String::new();
    let mut i: usize = 0;
    while i < n
        invariant
            n == s@.len(),
            st@ == s@,
            i <= n,
            out@ == tg_escape(s@.take(i as int)),
        decreases n - i,
    {
        let c = st.get_char(i);
        if c == '-' || c == '.' || c == '(' || c == ')' || c == '+' || c == '#' {
            push_char(&mut out, '\\');
            push_char(&mut out, c);
        } else {
            push_char(&mut out, c);
        }
        proof {
            assert(s@.take(i + 1) =~= s@.take(i as int) + seq![s@[i as int]]);
            lemma_tg_escape_append(s@.take(i as int), seq![s@[i as int]]);
            assert(seq![s@[i as int]].drop_first() =~= Seq::<char>::empty());
            assert(tg_escape(Seq::<char>::empty()) =~= Seq::<char>::empty());
            assert(tg_escape(seq![s@[i as int]]) =~= escaped_char(s@[i as int]));
            assert(out@ =~= tg_escape(s@.take(i as int)) + escaped_char(s@[i as int]));
        }
        i += 1;
    }
    proof {
        assert(s@.take(n as int) =~= s@);
    }
    out
}

/// The character that stands for one decimal digit.
pub open spec fn digit_char(d: int) -> char {
    ((48 + d) as u8) as char
}

/// The decimal rendering of a number, most significant digit first.
pub open spec fn dec_rep(n: nat) -> Seq<char>
    decreases n,
{
    if n < 10 {
        seq![digit_char(n as int)]
    } else {
        dec_rep(n / 10).push(digit_char((n % 10) as int))
    }
}

/// Appends the decimal rendering of `n`.
pub fn push_u64_dec(s: &mut String, n: u64)
    ensures
        final(s)@ == old(s)@ + dec_rep(n as nat),
    decreases n,
{
    if n >= 10 {
        push_u64_dec(s, n / 10);
    }
    let d: u8 = (n % 10) as u8;
    push_char(s, (48 + d) as char);
    proof {
        if n < 10 {
            assert(old(s)@.push(digit_char(n as int)) =~= old(s)@ + dec_rep(n as nat));
        } else {
            assert((old(s)@ + dec_rep((n / 10) as nat)).push(digit_char((n % 10) as int)) =~= old(
                s,
            )@ + dec_rep(n as nat));
        }
    }
}

/// The decimal rendering of `n` as a fresh string.
pub fn u64_to_dec(n: u64) -> (r: String)
    ensures
        r@ == dec_rep(n as nat),
{
    let mut s = String::new();
    push_u64_dec(&mut s, n);
    proof {
        assert(Seq::<char>::empty() + dec_rep(n as nat) =~= dec_rep(n as nat));
    }
    s
}

} // verus!
