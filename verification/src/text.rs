//! Character and string primitives: ASCII classification and case folding,
//! substring search, prefix/suffix tests, and decimal conversion.
use vstd::prelude::*;

verus! {

/// True when `c` is an ASCII decimal digit.
pub open spec fn is_ascii_digit(c: char) -> bool {
    48 <= c as int && c as int <= 57
}

/// ASCII case folding of one character: `A`..`Z` map to `a`..`z`,
/// everything else is unchanged.
pub open spec fn lower_char(c: char) -> char {
    if 65 <= c as int && c as int <= 90 {
        ((c as int) + 32) as char
    } else {
        c
    }
}

/// ASCII case folding of a whole character sequence.
pub open spec fn lower(s: Seq<char>) -> Seq<char> {
    Seq::new(s.len(), |i: int| lower_char(s[i]))
}

/// `p` occurs in `s` starting at index `i`.
pub open spec fn matches_at(s: Seq<char>, p: Seq<char>, i: int) -> bool {
    0 <= i && i + p.len() <= s.len() && forall|j: int|
        0 <= j < p.len() ==> #[trigger] p[j] == s[i + j]
}

/// `p` occurs somewhere in `s`.
pub open spec fn has_substring(s: Seq<char>, p: Seq<char>) -> bool {
    exists|i: int| matches_at(s, p, i)
}

/// `s` ends with `suf`.
pub open spec fn spec_ends_with(s: Seq<char>, suf: Seq<char>) -> bool {
    suf.len() <= s.len() && matches_at(s, suf, s.len() - suf.len())
}

/// `s` starts with `pre`.
pub open spec fn spec_starts_with(s: Seq<char>, pre: Seq<char>) -> bool {
    matches_at(s, pre, 0)
}

/// Index of the first occurrence of `c` in `s` at or after `i`;
/// `s.len()` when there is none.
pub open spec fn find_char_from(s: Seq<char>, c: char, i: int) -> int
    decreases s.len() - i when 0 <= i <= s.len()
{
    if i >= s.len() {
        s.len() as int
    } else if s[i] == c {
        i
    } else {
        find_char_from(s, c, i + 1)
    }
}

pub proof fn lemma_find_char_from(s: Seq<char>, c: char, i: int)
    requires
        0 <= i <= s.len(),
    ensures
        i <= find_char_from(s, c, i) <= s.len(),
        find_char_from(s, c, i) < s.len() ==> s[find_char_from(s, c, i)] == c,
        forall|j: int| i <= j < find_char_from(s, c, i) ==> s[j] != c,
    decreases s.len() - i
{
    if i < s.len() && s[i] != c {
        lemma_find_char_from(s, c, i + 1);
    }
}

/// Index of the first occurrence of `c` in `s`, or the length of `s`
/// when there is none (runtime form of `find_char_from`).
pub fn find_char_exec(s: &str, c: char) -> (r: usize)
    ensures
        r as int == find_char_from(s@, c, 0),
        r <= s@.len(),
{
    let slen = s.unicode_len();
    let mut i: usize = 0;
    while i < slen
        invariant
            i <= slen,
            slen == s@.len(),
            find_char_from(s@, c, 0) == find_char_from(s@, c, i as int),
        decreases slen - i
    {
        if s.get_char(i) == c {
            return i;
        }
        i += 1;
    }
    i
}

/// Numeric value of a sequence of decimal digit characters.
pub open spec fn dec_val(s: Seq<char>) -> int
    decreases s.len()
{
    if s.len() == 0 {
        0
    } else {
        dec_val(s.drop_last()) * 10 + (s.last() as int - 48)
    }
}

/// Every character of `s` is an ASCII decimal digit.
pub open spec fn all_digits(s: Seq<char>) -> bool {
    forall|i: int| 0 <= i < s.len() ==> is_ascii_digit(#[trigger] s[i])
}

/// Runtime check matching `is_ascii_digit`.
pub fn char_is_digit(c: char) -> (r: bool)
    ensures
        r == is_ascii_digit(c),
{
    let u: u32 = c as u32;
    48 <= u && u <= 57
}

/// Runtime ASCII case folding of one character.
pub fn char_lower(c: char) -> (r: char)
    ensures
        r == lower_char(c),
{
    let u: u32 = c as u32;
    if 65 <= u && u <= 90 {
        let b: u8 = (u + 32) as u8;
        proof {
            assert(((u + 32) as u8) as u32 == u + 32) by (bit_vector)
                requires 65 <= u && u <= 90;
        }
        b as char
    } else {
        c
    }
}

/// `p` occurs in `s` starting at `i` (runtime form of `matches_at`).
pub fn match_at_exec(s: &str, p: &str, i: usize) -> (r: bool)
    requires
        i + p@.len() <= s@.len(),
    ensures
        r == matches_at(s@, p@, i as int),
{
    let slen = s.unicode_len();
    let plen = p.unicode_len();
    let mut j: usize = 0;
    while j < plen
        invariant
            j <= plen,
            slen == s@.len(),
            plen == p@.len(),
            i + plen <= slen,
            forall|t: int| 0 <= t < j ==> #[trigger] p@[t] == s@[i + t],
        decreases plen - j
    {
        if s.get_char(i + j) != p.get_char(j) {
            return false;
        }
        j += 1;
    }
    true
}

/// Substring search (runtime form of `has_substring`).
pub fn str_contains(s: &str, p: &str) -> (r: bool)
    ensures
        r == has_substring(s@, p@),
{
    let slen = s.unicode_len();
    let plen = p.unicode_len();
    if plen > slen {
        return false;
    }
    let mut i: usize = 0;
    while i <= slen - plen
        invariant
            slen == s@.len(),
            plen == p@.len(),
            plen <= slen,
            i <= slen - plen + 1,
            forall|k: int| 0 <= k < i ==> !matches_at(s@, p@, k),
        decreases slen - plen + 1 - i
    {
        if match_at_exec(s, p, i) {
            return true;
        }
        i += 1;
    }
    false
}

/// String equality at the character level.
pub fn str_eq(a: &str, b: &str) -> (r: bool)
    ensures
        r == (a@ == b@),
{
    let alen = a.unicode_len();
    let blen = b.unicode_len();
    if alen != blen {
        return false;
    }
    let r = match_at_exec(a, b, 0);
    proof {
        if r {
            assert(a@ =~= b@);
        } else {
            assert(!(a@ =~= b@));
        }
    }
    r
}

/// `s` ends with `suf` (runtime form of `spec_ends_with`).
pub fn str_ends_with(s: &str, suf: &str) -> (r: bool)
    ensures
        r == spec_ends_with(s@, suf@),
{
    let slen = s.unicode_len();
    let plen = suf.unicode_len();
    if plen > slen {
        return false;
    }
    match_at_exec(s, suf, slen - plen)
}

/// `s` starts with `pre` (runtime form of `spec_starts_with`).
pub fn str_starts_with(s: &str, pre: &str) -> (r: bool)
    ensures
        r == spec_starts_with(s@, pre@),
{
    let slen = s.unicode_len();
    let plen = pre.unicode_len();
    if plen > slen {
        return false;
    }
    match_at_exec(s, pre, 0)
}

/// `p` occurs in the folded form of `s` starting at `i`.
pub fn match_at_lower_exec(s: &str, p: &str, i: usize) -> (r: bool)
    requires
        i + p@.len() <= s@.len(),
    ensures
        r == matches_at(lower(s@), p@, i as int),
{
    let slen = s.unicode_len();
    let plen = p.unicode_len();
    let mut j: usize = 0;
    while j < plen
        invariant
            j <= plen,
            slen == s@.len(),
            plen == p@.len(),
            i + plen <= slen,
            forall|t: int| 0 <= t < j ==> #[trigger] p@[t] == lower(s@)[i + t],
        decreases plen - j
    {
        if char_lower(s.get_char(i + j)) != p.get_char(j) {
            assert(lower(s@)[i + j] != p@[j as int]);
            return false;
        }
        j += 1;
    }
    true
}

/// Case-folded substring search: does `p` occur in the folded form of `s`?
/// `p` itself is used as given (callers pass it already in lower case).
pub fn str_contains_lower(s: &str, p: &str) -> (r: bool)
    ensures
        r == has_substring(lower(s@), p@),
{
    let slen = s.unicode_len();
    let plen = p.unicode_len();
    if plen > slen {
        return false;
    }
    let mut i: usize = 0;
    while i <= slen - plen
        invariant
            slen == s@.len(),
            plen == p@.len(),
            plen <= slen,
            i <= slen - plen + 1,
            forall|k: int| 0 <= k < i ==> !matches_at(lower(s@), p@, k),
        decreases slen - plen + 1 - i
    {
        if match_at_lower_exec(s, p, i) {
            return true;
        }
        i += 1;
    }
    false
}

/// Case folding of a whole string.
pub fn lower_str(s: &str) -> (r: String)
    ensures
        r@ == lower(s@),
{
    let alpha = "abcdefghijklmnopqrstuvwxyz";
    proof {
        reveal_strlit("abcdefghijklmnopqrstuvwxyz");
    }
    let slen = s.unicode_len();
    let mut out = String::new();
    let mut i: usize = 0;
    while i < slen
        invariant
            i <= slen,
            slen == s@.len(),
            alpha@ =~= "abcdefghijklmnopqrstuvwxyz"@,
            out@ == lower(s@).take(i as int),
        decreases slen - i
    {
        proof {
            reveal_strlit("abcdefghijklmnopqrstuvwxyz");
        }
        let c = s.get_char(i);
        let u: u32 = c as u32;
        if 65 <= u && u <= 90 {
            let k = (u - 65) as usize;
            let piece = alpha.substring_char(k, k + 1);
            assert(piece@ =~= seq![lower_char(c)]);
            out.append(piece);
        } else {
            let piece = s.substring_char(i, i + 1);
            assert(piece@ =~= seq![lower_char(c)]);
            out.append(piece);
        }
        proof {
            assert(out@ =~= lower(s@).take(i as int + 1));
        }
        i += 1;
    }
    proof {
        assert(lower(s@).take(slen as int) =~= lower(s@));
    }
    out
}

pub proof fn lemma_dec_val_nonneg(s: Seq<char>)
    requires
        all_digits(s),
    ensures
        dec_val(s) >= 0,
    decreases s.len()
{
    if s.len() > 0 {
        assert(all_digits(s.drop_last()));
        lemma_dec_val_nonneg(s.drop_last());
    }
}

/// A digit string of length `n` denotes a value below `10^n`.
pub open spec fn pow10(n: nat) -> int
    decreases n
{
    if n == 0 {
        1
    } else {
        10 * pow10((n - 1) as nat)
    }
}

pub proof fn lemma_dec_val_upper(s: Seq<char>)
    requires
        all_digits(s),
    ensures
        dec_val(s) < pow10(s.len()),
    decreases s.len()
{
    if s.len() > 0 {
        assert(all_digits(s.drop_last()));
        lemma_dec_val_upper(s.drop_last());
    }
}

/// The denoted value never shrinks as more digits are appended.
pub proof fn lemma_dec_val_prefix(s: Seq<char>, i: int)
    requires
        all_digits(s),
        0 <= i <= s.len(),
    ensures
        dec_val(s.take(i)) <= dec_val(s),
    decreases s.len() - i
{
    if i < s.len() {
        lemma_dec_val_prefix(s, i + 1);
        assert(s.take(i + 1).drop_last() =~= s.take(i));
        assert(all_digits(s.take(i)));
        lemma_dec_val_nonneg(s.take(i));
        assert(dec_val(s.take(i + 1)) == dec_val(s.take(i)) * 10 + (s[i] as int - 48));
    } else {
        assert(s.take(i) =~= s);
    }
}

/// Parses a non-empty all-digit string as a decimal number.
/// Fails exactly when the string is empty, holds a non-digit,
/// or denotes a value above `u32::MAX`.
pub fn parse_num(s: &str) -> (r: Option<u32>)
    ensures
        r is Some <==> (s@.len() > 0 && all_digits(s@) && dec_val(s@) <= u32::MAX),
        r matches Some(n) ==> n as int == dec_val(s@),
{
    let slen = s.unicode_len();
    if slen == 0 {
        return None;
    }
    let mut acc: u32 = 0;
    let mut i: usize = 0;
    while i < slen
        invariant
            i <= slen,
            slen == s@.len(),
            all_digits(s@.take(i as int)),
            acc as int == dec_val(s@.take(i as int)),
        decreases slen - i
    {
        let c = s.get_char(i);
        if !char_is_digit(c) {
            assert(!all_digits(s@));
            return None;
        }
        let d: u32 = (c as u32) - 48;
        proof {
            assert(s@.take(i as int + 1).drop_last() =~= s@.take(i as int));
            assert(all_digits(s@.take(i as int + 1)));
        }
        if acc > (u32::MAX - d) / 10 {
            proof {
                assert(acc as int * 10 + d as int > u32::MAX);
                if all_digits(s@) {
                    lemma_dec_val_prefix(s@, i as int + 1);
                    assert(dec_val(s@.take(i as int + 1)) == acc as int * 10 + d as int);
                }
            }
            assert(!(s@.len() > 0 && all_digits(s@) && dec_val(s@) <= u32::MAX));
            return None;
        }
        acc = acc * 10 + d;
        i += 1;
    }
    proof {
        assert(s@.take(slen as int) =~= s@);
    }
    Some(acc)
}

/// The character that renders the decimal digit `d`.
pub open spec fn digit_char(d: int) -> char {
    (48 + d) as char
}

/// Two-digit zero-padded rendering.
pub open spec fn pad2(n: int) -> Seq<char> {
    seq![digit_char(n / 10), digit_char(n % 10)]
}

/// Four-digit zero-padded rendering.
pub open spec fn pad4(n: int) -> Seq<char> {
    seq![
        digit_char(n / 1000),
        digit_char((n / 100) % 10),
        digit_char((n / 10) % 10),
        digit_char(n % 10),
    ]
}

/// Unpadded rendering of a number below 100.
pub open spec fn dec_short(n: int) -> Seq<char> {
    if n < 10 {
        seq![digit_char(n)]
    } else {
        pad2(n)
    }
}

/// Appends the single digit `d` to `out`.
pub fn append_digit(out: &mut String, d: u32)
    requires
        d < 10,
    ensures
        final(out)@ == old(out)@ + seq![digit_char(d as int)],
{
    let digits = "0123456789";
    proof {
        reveal_strlit("0123456789");
    }
    let k = d as usize;
    let piece = digits.substring_char(k, k + 1);
    assert(piece@ =~= seq![digit_char(d as int)]);
    out.append(piece);
}

/// Appends `n` as two zero-padded digits.
pub fn append_pad2(out: &mut String, n: u32)
    requires
        n < 100,
    ensures
        final(out)@ == old(out)@ + pad2(n as int),
{
    append_digit(out, n / 10);
    append_digit(out, n % 10);
    assert(out@ =~= old(out)@ + pad2(n as int));
}

/// Appends `n` as four zero-padded digits.
pub fn append_pad4(out: &mut String, n: u32)
    requires
        n < 10000,
    ensures
        final(out)@ == old(out)@ + pad4(n as int),
{
    append_digit(out, n / 1000);
    append_digit(out, (n / 100) % 10);
    append_digit(out, (n / 10) % 10);
    append_digit(out, n % 10);
    assert(out@ =~= old(out)@ + pad4(n as int));
}

/// Appends `n` without padding; `n` is below 100.
pub fn append_dec_short(out: &mut String, n: u32)
    requires
        n < 100,
    ensures
        final(out)@ == old(out)@ + dec_short(n as int),
{
    if n < 10 {
        append_digit(out, n);
        assert(out@ =~= old(out)@ + dec_short(n as int));
    } else {
        append_pad2(out, n);
    }
}

/// Case folding is idempotent: folding an already folded sequence
/// changes nothing.
pub proof fn lemma_lower_idempotent(s: Seq<char>)
    ensures
        lower(lower(s)) == lower(s),
{
    assert forall|i: int| 0 <= i < s.len() implies lower_char(lower(s)[i]) == lower(s)[i] by {
        assert(lower(s)[i] == lower_char(s[i]));
    }
    assert(lower(lower(s)) =~= lower(s));
}

} // verus!
