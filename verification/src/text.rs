//! Character, string and decimal-number utilities shared by the gateway.
//!
//! Everything here works over `Seq<char>` views; the only trusted items are a
//! wrapper around `String::push` and one around `char::is_whitespace`.

use vstd::prelude::*;

verus! {

broadcast use vstd::string::group_string_axioms;

// ---------------------------------------------------------------------------
// characters
// ---------------------------------------------------------------------------

/// ASCII upper-case letters map to lower case; everything else is unchanged.
pub open spec fn lower_char(c: char) -> char {
    if 65 <= (c as u32) && (c as u32) <= 90 {
        (((c as u32) + 32) as u8) as char
    } else {
        c
    }
}

/// ASCII lower-case letters map to upper case; everything else is unchanged.
pub open spec fn upper_char(c: char) -> char {
    if 97 <= (c as u32) && (c as u32) <= 122 {
        (((c as u32) - 32) as u8) as char
    } else {
        c
    }
}

/// ASCII digits and letters.
pub open spec fn is_ascii_alnum(c: char) -> bool {
    let u = c as u32;
    (48 <= u && u <= 57) || (65 <= u && u <= 90) || (97 <= u && u <= 122)
}

pub fn to_lower_char(c: char) -> (r: char)
    ensures
        r == lower_char(c),
{
    let u = c as u32;
    if 65 <= u && u <= 90 {
        ((u + 32) as u8) as char
    } else {
        c
    }
}

pub fn to_upper_char(c: char) -> (r: char)
    ensures
        r == upper_char(c),
{
    let u = c as u32;
    if 97 <= u && u <= 122 {
        ((u - 32) as u8) as char
    } else {
        c
    }
}

pub fn ascii_alnum(c: char) -> (r: bool)
    ensures
        r == is_ascii_alnum(c),
{
    let u = c as u32;
    (48 <= u && u <= 57) || (65 <= u && u <= 90) || (97 <= u && u <= 122)
}

/// What `char::is_whitespace` holds of a character.  The full Unicode
/// `White_Space` table is not restated here; only the ASCII corners that the
/// documentation gives plainly are pinned below.
pub uninterp spec fn char_is_ws(c: char) -> bool;

/// Relies on `char::is_whitespace`: true exactly on `White_Space` characters;
/// the ASCII whitespace characters have the property and visible ASCII does not.
#[verifier::external_body]
pub fn is_ws_char(c: char) -> (r: bool)
    ensures
        r == char_is_ws(c),
        (c == ' ' || c == '\t' || c == '\n' || c == '\r') ==> r,
        (33 <= (c as u32) && (c as u32) <= 126) ==> !r,
{
    c.is_whitespace()
}

// ---------------------------------------------------------------------------
// strings
// ---------------------------------------------------------------------------

/// Relies on `String::push`: appends exactly one character.
#[verifier::external_body]
pub fn push_char(s: &mut String, c: char)
    ensures
        final(s)@ == old(s)@.push(c),
{
    s.push(c);
}

/// Builds an owned copy of a string slice.
pub fn copy_str(s: &str) -> (r: String)
    ensures
        r@ == s@,
{
    let mut r = String::new();
    r.append(s);
    r
}

/// Concatenation of two string slices.
pub fn concat2(a: &str, b: &str) -> (r: String)
    ensures
        r@ == a@ + b@,
{
    let mut r = String::new();
    r.append(a);
    r.append(b);
    r
}

/// Concatenation of three string slices.
pub fn concat3(a: &str, b: &str, c: &str) -> (r: String)
    ensures
        r@ == a@ + b@ + c@,
{
    let mut r = String::new();
    r.append(a);
    r.append(b);
    r.append(c);
    r
}

/// Concatenation of four string slices.
pub fn concat4(a: &str, b: &str, c: &str, d: &str) -> (r: String)
    ensures
        r@ == a@ + b@ + c@ + d@,
{
    let mut r = String::new();
    r.append(a);
    r.append(b);
    r.append(c);
    r.append(d);
    r
}

/// Character-for-character equality of two string slices.
pub fn str_eq(a: &str, b: &str) -> (r: bool)
    ensures
        r == (a@ == b@),
{
    let an = a.unicode_len();
    let bn = b.unicode_len();
    if an != bn {
        assert(a@.len() != b@.len());
        return false;
    }
    let mut i: usize = 0;
    while i < an
        invariant
            an == a@.len(),
            bn == b@.len(),
            an == bn,
            i <= an,
            forall|j: int| 0 <= j < i ==> a@[j] == b@[j],
        decreases an - i,
    {
        if a.get_char(i) != b.get_char(i) {
            assert(a@[i as int] != b@[i as int]);
            return false;
        }
        i = i + 1;
    }
    proof {
        assert(a@ =~= b@);
    }
    true
}

/// Does `s` start with `prefix`, character for character?
pub fn str_starts_with(s: &str, prefix: &str) -> (r: bool)
    ensures
        r == (s@.len() >= prefix@.len() && s@.subrange(0, prefix@.len() as int) == prefix@),
{
    let sn = s.unicode_len();
    let pn = prefix.unicode_len();
    if pn > sn {
        return false;
    }
    let mut i: usize = 0;
    while i < pn
        invariant
            sn == s@.len(),
            pn == prefix@.len(),
            pn <= sn,
            i <= pn,
            forall|j: int| 0 <= j < i ==> s@[j] == prefix@[j],
        decreases pn - i,
    {
        if s.get_char(i) != prefix.get_char(i) {
            assert(s@.subrange(0, pn as int)[i as int] != prefix@[i as int]);
            return false;
        }
        i = i + 1;
    }
    proof {
        assert(s@.subrange(0, pn as int) =~= prefix@);
    }
    true
}

/// Does `s` end with `suffix`, character for character?
pub fn str_ends_with(s: &str, suffix: &str) -> (r: bool)
    ensures
        r == (s@.len() >= suffix@.len() && s@.subrange(
            s@.len() - suffix@.len(),
            s@.len() as int,
        ) == suffix@),
{
    let sn = s.unicode_len();
    let un = suffix.unicode_len();
    if un > sn {
        return false;
    }
    let base = sn - un;
    let mut i: usize = 0;
    while i < un
        invariant
            sn == s@.len(),
            un == suffix@.len(),
            un <= sn,
            base == sn - un,
            i <= un,
            forall|j: int| 0 <= j < i ==> s@[base + j] == suffix@[j],
        decreases un - i,
    {
        if s.get_char(base + i) != suffix.get_char(i) {
            assert(s@.subrange(base as int, sn as int)[i as int] != suffix@[i as int]);
            return false;
        }
        i = i + 1;
    }
    proof {
        assert(s@.subrange(base as int, sn as int) =~= suffix@);
    }
    true
}

/// `s` with every ASCII upper-case letter lower-cased.
pub open spec fn lower_seq(s: Seq<char>) -> Seq<char> {
    s.map_values(|c: char| lower_char(c))
}

/// Lower-cases the ASCII letters of a string.
pub fn lower_ascii(s: &str) -> (r: String)
    ensures
        r@ == lower_seq(s@),
{
    let n = s.unicode_len();
    let mut r = String::new();
    let mut i: usize = 0;
    while i < n
        invariant
            n == s@.len(),
            i <= n,
            r@ =~= lower_seq(s@).take(i as int),
        decreases n - i,
    {
        push_char(&mut r, to_lower_char(s.get_char(i)));
        i = i + 1;
        proof {
            assert(lower_seq(s@).take(i as int) =~= lower_seq(s@).take(i - 1).push(
                lower_char(s@[i - 1]),
            ));
        }
    }
    proof {
        assert(lower_seq(s@).take(n as int) =~= lower_seq(s@));
    }
    r
}

// ---------------------------------------------------------------------------
// whitespace trimming
// ---------------------------------------------------------------------------

/// Length of the longest whitespace prefix of `s`.
pub open spec fn ws_prefix_len(s: Seq<char>) -> nat
    decreases s.len(),
{
    if s.len() > 0 && char_is_ws(s[0]) {
        1 + ws_prefix_len(s.drop_first())
    } else {
        0
    }
}

/// Length of the longest whitespace suffix of `s`.
pub open spec fn ws_suffix_len(s: Seq<char>) -> nat
    decreases s.len(),
{
    if s.len() > 0 && char_is_ws(s[s.len() - 1]) {
        1 + ws_suffix_len(s.drop_last())
    } else {
        0
    }
}

/// `s` with its whitespace prefix and suffix removed.
pub open spec fn trim_spec(s: Seq<char>) -> Seq<char> {
    if ws_prefix_len(s) == s.len() {
        Seq::empty()
    } else {
        s.subrange(ws_prefix_len(s) as int, s.len() - ws_suffix_len(s))
    }
}

proof fn lemma_ws_prefix(s: Seq<char>, i: nat)
    requires
        i <= s.len(),
        forall|j: int| 0 <= j < i ==> char_is_ws(s[j]),
        i < s.len() ==> !char_is_ws(s[i as int]),
    ensures
        ws_prefix_len(s) == i,
    decreases s.len(),
{
    if s.len() > 0 && char_is_ws(s[0]) {
        assert(i > 0);
        lemma_ws_prefix(s.drop_first(), (i - 1) as nat);
    }
}

proof fn lemma_ws_suffix(s: Seq<char>, i: nat)
    requires
        i <= s.len(),
        forall|j: int| s.len() - i <= j < s.len() ==> char_is_ws(s[j]),
        i < s.len() ==> !char_is_ws(s[s.len() - i - 1]),
    ensures
        ws_suffix_len(s) == i,
    decreases s.len(),
{
    if s.len() > 0 && char_is_ws(s[s.len() - 1]) {
        assert(i > 0);
        lemma_ws_suffix(s.drop_last(), (i - 1) as nat);
    }
}

/// Removes leading and trailing whitespace, as `str::trim` does.
pub fn trim(s: &str) -> (r: &str)
    ensures
        r@ == trim_spec(s@),
{
    let n = s.unicode_len();
    let mut a: usize = 0;
    while a < n && is_ws_char(s.get_char(a))
        invariant
            n == s@.len(),
            a <= n,
            forall|j: int| 0 <= j < a ==> char_is_ws(s@[j]),
        decreases n - a,
    {
        a = a + 1;
    }
    if a == n {
        proof {
            lemma_ws_prefix(s@, n as nat);
        }
        let r = s.substring_char(n, n);
        proof {
            assert(r@ =~= trim_spec(s@));
        }
        return r;
    }
    proof {
        lemma_ws_prefix(s@, a as nat);
    }
    let mut b: usize = n;
    while b > a && is_ws_char(s.get_char(b - 1))
        invariant
            n == s@.len(),
            a < n,
            a <= b <= n,
            !char_is_ws(s@[a as int]),
            forall|j: int| b <= j < n ==> char_is_ws(s@[j]),
        decreases b,
    {
        b = b - 1;
    }
    proof {
        if b == a {
            assert(!char_is_ws(s@[a as int]));
            assert(false);
        }
        lemma_ws_suffix(s@, (n - b) as nat);
    }
    s.substring_char(a, b)
}

/// Is every character of `s` whitespace?  True of the empty sequence.
pub open spec fn all_ws(s: Seq<char>) -> bool {
    forall|j: int| 0 <= j < s.len() ==> char_is_ws(s[j])
}

/// Are all characters of `s` whitespace?  True of the empty string.
pub fn is_blank(s: &str) -> (r: bool)
    ensures
        r == all_ws(s@),
{
    let n = s.unicode_len();
    let mut i: usize = 0;
    while i < n
        invariant
            n == s@.len(),
            i <= n,
            forall|j: int| 0 <= j < i ==> char_is_ws(s@[j]),
        decreases n - i,
    {
        if !is_ws_char(s.get_char(i)) {
            return false;
        }
        i = i + 1;
    }
    true
}

// ---------------------------------------------------------------------------
// decimal rendering
// ---------------------------------------------------------------------------

/// The character for one decimal digit value.
pub open spec fn digit_char(d: nat) -> char {
    ((48 + d) as u8) as char
}

/// Decimal rendering of a natural number, most significant digit first.
pub open spec fn dec_str(n: nat) -> Seq<char>
    decreases n,
{
    if n < 10 {
        seq![digit_char(n)]
    } else {
        dec_str(n / 10).push(digit_char(n % 10))
    }
}

/// `s` left-padded with `'0'` up to width `w`.
pub open spec fn zero_pad(s: Seq<char>, w: nat) -> Seq<char> {
    if s.len() >= w {
        s
    } else {
        Seq::new((w - s.len()) as nat, |i: int| '0') + s
    }
}

/// The digit characters of `digits` read in reverse order.
spec fn rev_digit_chars(digits: Seq<u8>) -> Seq<char> {
    Seq::new(digits.len(), |i: int| digit_char(digits[digits.len() - 1 - i] as nat))
}

/// Decimal rendering of `n`, left-padded with zeros to at least `width`
/// characters.
pub fn dec_u64_pad(n: u64, width: usize) -> (r: String)
    ensures
        r@ == zero_pad(dec_str(n as nat), width as nat),
{
    let mut digits: Vec<u8> = Vec::new();
    let mut m: u64 = n;
    loop
        invariant_except_break
            digits@.len() > 0 ==> m > 0,
            forall|j: int| 0 <= j < digits@.len() ==> digits@[j] < 10,
            dec_str(n as nat) == if digits@.len() == 0 {
                dec_str(m as nat)
            } else if m == 0 {
                rev_digit_chars(digits@)
            } else {
                dec_str(m as nat) + rev_digit_chars(digits@)
            },
        ensures
            digits@.len() >= 1,
            forall|j: int| 0 <= j < digits@.len() ==> digits@[j] < 10,
            dec_str(n as nat) == rev_digit_chars(digits@),
        decreases m,
    {
        let d: u8 = (m % 10) as u8;
        let ghost old_digits = digits@;
        let ghost old_m = m as nat;
        digits.push(d);
        m = m / 10;
        proof {
            assert(rev_digit_chars(old_digits.push(d)) =~= seq![digit_char(d as nat)]
                + rev_digit_chars(old_digits));
            if old_m >= 10 {
                assert(dec_str(old_m) == dec_str(old_m / 10).push(digit_char(old_m % 10)));
                assert(dec_str(old_m) =~= dec_str(old_m / 10) + seq![digit_char(old_m % 10)]);
            }
            if old_digits.len() == 0 {
                if m == 0 {
                    assert(dec_str(n as nat) =~= rev_digit_chars(digits@));
                } else {
                    assert(dec_str(n as nat) =~= dec_str(m as nat) + rev_digit_chars(digits@));
                }
            } else {
                if m == 0 {
                    assert(dec_str(n as nat) =~= rev_digit_chars(digits@));
                } else {
                    assert(dec_str(n as nat) =~= dec_str(m as nat) + rev_digit_chars(digits@));
                }
            }
        }
        if m == 0 {
            break;
        }
    }
    let mut r = String::new();
    let mut pad: usize = digits.len();
    while pad < width
        invariant
            digits@.len() >= 1,
            pad >= digits@.len(),
            pad <= width || pad == digits@.len(),
            r@ =~= Seq::new((pad - digits@.len()) as nat, |i: int| '0'),
        decreases width - pad,
    {
        push_char(&mut r, '0');
        pad = pad + 1;
    }
    let count = digits.len();
    let mut j: usize = 0;
    let ghost prefix = r@;
    while j < count
        invariant
            count == digits@.len(),
            forall|k: int| 0 <= k < digits@.len() ==> digits@[k] < 10,
            j <= count,
            r@ =~= prefix + rev_digit_chars(digits@).take(j as int),
        decreases count - j,
    {
        let d = digits[count - 1 - j];
        push_char(&mut r, ((48 + d) as u8) as char);
        j = j + 1;
        proof {
            assert(rev_digit_chars(digits@).take(j as int) =~= rev_digit_chars(digits@).take(
                j - 1,
            ).push(digit_char(digits@[count - j] as nat)));
        }
    }
    proof {
        assert(rev_digit_chars(digits@).take(count as int) =~= rev_digit_chars(digits@));
        assert(r@ =~= zero_pad(dec_str(n as nat), width as nat));
    }
    r
}

/// Decimal rendering of `n`.
pub fn dec_u64(n: u64) -> (r: String)
    ensures
        r@ == dec_str(n as nat),
{
    let r = dec_u64_pad(n, 0);
    proof {
        assert(zero_pad(dec_str(n as nat), 0) =~= dec_str(n as nat));
    }
    r
}

} // verus!
