//! Verified text utilities: the string comparisons, substring searches,
//! case folding and integer parsing / printing that the provider adapters
//! and the notifier messages rely on.

use vstd::prelude::*;
use vstd::string::StrSliceExecFns;
use vstd::string::StringExecFns;

verus! {

/// Relies on std's String::push: it appends the given character to the end
/// of this string.
pub assume_specification[ String::push ](s: &mut String, c: char)
    ensures
        final(s)@ == old(s)@.push(c),
;

/// Compare two string slices character by character.
pub fn str_eq(a: &str, b: &str) -> (r: bool)
    ensures
        r == (a@ == b@),
{
    let n = a.unicode_len();
    let m = b.unicode_len();
    if n != m {
        proof {
            assert(a@.len() != b@.len());
        }
        return false;
    }
    let mut i: usize = 0;
    while i < n
        invariant
            n == a@.len(),
            n == b@.len(),
            i <= n,
            forall|j: int| 0 <= j < i ==> a@[j] == b@[j],
        decreases n - i,
    {
        if a.get_char(i) != b.get_char(i) {
            return false;
        }
        i += 1;
    }
    proof {
        assert(a@ =~= b@);
    }
    true
}

/// `n` occurs in `h` starting at position `i`.
pub open spec fn is_substr_at(h: Seq<char>, n: Seq<char>, i: int) -> bool {
    0 <= i && i + n.len() <= h.len() && h.subrange(i, i + n.len()) == n
}

/// `n` occurs somewhere in `h`.
pub open spec fn contains_seq(h: Seq<char>, n: Seq<char>) -> bool {
    exists|i: int| is_substr_at(h, n, i)
}

/// Decide whether `n` occurs in `h` at position `i`.
fn match_at(h: &str, n: &str, i: usize) -> (r: bool)
    requires
        i + n@.len() <= h@.len(),
        h@.len() <= usize::MAX,
    ensures
        r == is_substr_at(h@, n@, i as int),
{
    let nl = n.unicode_len();
    let mut j: usize = 0;
    while j < nl
        invariant
            nl == n@.len(),
            i + nl <= h@.len(),
            j <= nl,
            forall|k: int| 0 <= k < j ==> h@[i + k] == n@[k],
        decreases nl - j,
    {
        if h.get_char(i + j) != n.get_char(j) {
            proof {
                assert(h@.subrange(i as int, i as int + n@.len())[j as int] == h@[i + j]);
            }
            return false;
        }
        j += 1;
    }
    proof {
        assert(h@.subrange(i as int, i as int + n@.len()) =~= n@);
    }
    true
}

/// Decide whether the needle `n` occurs anywhere in the haystack `h`.
pub fn contains_substring(h: &str, n: &str) -> (r: bool)
    ensures
        r == contains_seq(h@, n@),
{
    let hl = h.unicode_len();
    let nl = n.unicode_len();
    if nl > hl {
        return false;
    }
    if nl == 0 {
        proof {
            assert(h@.subrange(0, 0) =~= n@);
            assert(is_substr_at(h@, n@, 0));
        }
        return true;
    }
    let mut i: usize = 0;
    while i <= hl - nl
        invariant
            hl == h@.len(),
            nl == n@.len(),
            nl <= hl,
            i <= hl - nl + 1,
            forall|k: int| 0 <= k < i ==> !is_substr_at(h@, n@, k),
        decreases hl - nl - i + 1,
    {
        if match_at(h, n, i) {
            return true;
        }
        i += 1;
    }
    proof {
        assert forall|k: int| !is_substr_at(h@, n@, k) by {
            if 0 <= k < hl - nl + 1 {
            } else {
            }
        }
    }
    false
}

/// The ASCII lower-case form of one character; every other character is
/// kept as it is.
pub open spec fn lower_char(c: char) -> char {
    if 65 <= c as int && c as int <= 90 {
        ((c as int + 32) as u8) as char
    } else {
        c
    }
}

/// The ASCII lower-case form of a character sequence.
pub open spec fn lower_seq(s: Seq<char>) -> Seq<char> {
    s.map_values(|c: char| lower_char(c))
}

/// Fold a string to ASCII lower case.
pub fn ascii_lower(s: &str) -> (r: String)
    ensures
        r@ == lower_seq(s@),
{
    let n = s.unicode_len();
    let mut r = String::new();
    let mut i: usize = 0;
    while i < n
        invariant
            n == s@.len(),
            i <= n,
            r@.len() == i,
            forall|j: int| 0 <= j < i ==> r@[j] == lower_char(s@[j]),
        decreases n - i,
    {
        let c = s.get_char(i);
        let b = c as u32;
        let lc: char = if 65 <= b && b <= 90 {
            ((b + 32) as u8) as char
        } else {
            c
        };
        r.push(lc);
        i += 1;
    }
    proof {
        assert(r@ =~= lower_seq(s@));
    }
    r
}

/// Decide whether a provider-reported queue name denotes a ranked mode:
/// whether it contains "ranked" regardless of ASCII case. A ranked match
/// whose points delta could not be extracted is a hard fetch error, so this
/// test guards the dedup state against a silent parse break.
pub fn mode_is_ranked(game_mode: &str) -> (r: bool)
    ensures
        r == contains_seq(lower_seq(game_mode@), "ranked"@),
{
    let lowered = ascii_lower(game_mode);
    contains_substring(lowered.as_str(), "ranked")
}

/// Decide whether a provider-reported role is the placeholder for an
/// unknown role: whether it contains "unknown" regardless of ASCII case.
pub fn role_is_unknown(role: &str) -> (r: bool)
    ensures
        r == contains_seq(lower_seq(role@), "unknown"@),
{
    let lowered = ascii_lower(role);
    contains_substring(lowered.as_str(), "unknown")
}

/// `c` is a decimal digit.
pub open spec fn is_digit(c: char) -> bool {
    48 <= c as int <= 57
}

/// The numeric value of the digit `c`.
pub open spec fn digit_val(c: char) -> int {
    c as int - 48
}

/// Every character of `s` is a decimal digit.
pub open spec fn all_digits(s: Seq<char>) -> bool {
    forall|i: int| 0 <= i < s.len() ==> is_digit(#[trigger] s[i])
}

/// The value of a digit sequence read in base ten.
pub open spec fn digits_val(s: Seq<char>) -> int
    decreases s.len(),
{
    if s.len() == 0 {
        0
    } else {
        digits_val(s.drop_last()) * 10 + digit_val(s.last())
    }
}

/// The digits of `s` after an optional leading sign.
pub open spec fn int_literal_body(s: Seq<char>) -> Seq<char> {
    if s.len() > 0 && (s[0] == '+' || s[0] == '-') {
        s.drop_first()
    } else {
        s
    }
}

/// `s` starts with a minus sign.
pub open spec fn int_literal_negative(s: Seq<char>) -> bool {
    s.len() > 0 && s[0] == '-'
}

/// `s` is an optional sign followed by at least one digit and nothing else.
pub open spec fn is_int_literal(s: Seq<char>) -> bool {
    int_literal_body(s).len() > 0 && all_digits(int_literal_body(s))
}

/// The signed value `s` denotes.
pub open spec fn int_literal_val(s: Seq<char>) -> int {
    if int_literal_negative(s) {
        -digits_val(int_literal_body(s))
    } else {
        digits_val(int_literal_body(s))
    }
}

/// The value of a digit sequence is never negative.
pub proof fn lemma_digits_val_nonneg(s: Seq<char>)
    requires
        all_digits(s),
    ensures
        digits_val(s) >= 0,
    decreases s.len(),
{
    if s.len() > 0 {
        assert(all_digits(s.drop_last()));
        lemma_digits_val_nonneg(s.drop_last());
    }
}

/// Reading more digits never shrinks the value.
pub proof fn lemma_digits_val_take_le(s: Seq<char>, k: int)
    requires
        all_digits(s),
        0 <= k <= s.len(),
    ensures
        digits_val(s.take(k)) <= digits_val(s),
    decreases s.len() - k,
{
    if k < s.len() {
        let t = s.take(k + 1);
        assert(t.drop_last() =~= s.take(k));
        assert(all_digits(t)) by {
            assert(forall|i: int| 0 <= i < t.len() ==> t[i] == s[i]);
        }
        lemma_digits_val_nonneg(s.take(k));
        assert(digits_val(t) == digits_val(s.take(k)) * 10 + digit_val(s[k]));
        lemma_digits_val_take_le(s, k + 1);
    } else {
        assert(s.take(k) =~= s);
    }
}

/// Parse an optionally signed decimal integer, exactly when `s` is an
/// optional sign followed by digits and the value fits a 64-bit signed
/// integer.
pub fn parse_i64(s: &str) -> (r: Option<i64>)
    ensures
        r == if is_int_literal(s@) && i64::MIN <= int_literal_val(s@) <= i64::MAX {
            Some(int_literal_val(s@) as i64)
        } else {
            None::<i64>
        },
{
    let n = s.unicode_len();
    if n == 0 {
        return None;
    }
    let first = s.get_char(0);
    let neg = first == '-';
    let has_sign = neg || first == '+';
    let start: usize = if has_sign {
        1
    } else {
        0
    };
    proof {
        assert(int_literal_body(s@) =~= s@.subrange(start as int, n as int));
        assert(int_literal_negative(s@) == neg);
    }
    if start == n {
        return None;
    }
    let ghost body = s@.subrange(start as int, n as int);
    let mut acc: u128 = 0;
    let mut i: usize = start;
    while i < n
        invariant
            n == s@.len(),
            start <= i <= n,
            body == s@.subrange(start as int, n as int),
            acc == digits_val(s@.subrange(start as int, i as int)),
            acc <= 9223372036854775808u128,
            all_digits(s@.subrange(start as int, i as int)),
        decreases n - i,
    {
        let c = s.get_char(i);
        let cv = c as u32;
        if cv < 48 || cv > 57 {
            proof {
                assert(body[i - start] == s@[i as int]);
                assert(!is_digit(body[i - start]));
                assert(!all_digits(body));
            }
            return None;
        }
        let ghost pre = s@.subrange(start as int, i as int);
        proof {
            let cur = s@.subrange(start as int, i as int + 1);
            assert(cur.drop_last() =~= pre);
            assert(cur.last() == s@[i as int]);
            assert(all_digits(cur));
        }
        acc = acc * 10 + ((cv - 48) as u128);
        if acc > 9223372036854775808u128 {
            proof {
                let cur = s@.subrange(start as int, i as int + 1);
                assert(cur =~= body.take(i + 1 - start));
                if all_digits(body) {
                    lemma_digits_val_take_le(body, i + 1 - start);
                    assert(digits_val(body) >= acc);
                }
            }
            return None;
        }
        i += 1;
    }
    proof {
        assert(s@.subrange(start as int, n as int) =~= body);
        assert(is_int_literal(s@));
    }
    if neg {
        if acc == 9223372036854775808u128 {
            return Some(i64::MIN);
        }
        return Some(-(acc as i64));
    }
    if acc == 9223372036854775808u128 {
        return None;
    }
    Some(acc as i64)
}

/// The character of the digit `d`.
pub open spec fn digit_char(d: int) -> char {
    ((48 + d) as u8) as char
}

/// The decimal digits of the non-negative number `n`, highest first.
pub open spec fn dec_digits(n: int) -> Seq<char>
    decreases n,
{
    if n < 10 {
        seq![digit_char(if n < 0 {
            0
        } else {
            n
        })]
    } else {
        dec_digits(n / 10).push(digit_char(n % 10))
    }
}

/// The decimal text of the number `n`: its digits, highest first, after a
/// minus sign when `n` is negative.
pub open spec fn i64_text(n: int) -> Seq<char> {
    if n < 0 {
        seq!['-'] + dec_digits(-n)
    } else {
        dec_digits(n)
    }
}

/// The display form of a stack of digit values, lowest digit pushed last.
spec fn digit_stack_text(ds: Seq<u8>) -> Seq<char>
    decreases ds.len(),
{
    if ds.len() == 0 {
        Seq::empty()
    } else {
        seq![digit_char(ds.last() as int)] + digit_stack_text(ds.drop_last())
    }
}

/// Write `n` in decimal.
#[verifier::rlimit(50)]
pub fn i64_to_string(n: i64) -> (r: String)
    ensures
        r@ == i64_text(n as int),
{
    let mag: u128 = if n < 0 {
        (-(n as i128)) as u128
    } else {
        n as u128
    };
    let mut digits: Vec<u8> = Vec::new();
    let mut m: u128 = mag;
    digits.push((m % 10) as u8);
    m = m / 10;
    proof {
        assert(digits@.drop_last() =~= Seq::<u8>::empty());
        assert(digit_stack_text(Seq::<u8>::empty()) == Seq::<char>::empty());
        assert(digit_stack_text(digits@) =~= seq![digit_char(mag as int % 10)]);
        if m > 0 {
            assert(dec_digits(mag as int) == dec_digits(mag as int / 10).push(
                digit_char(mag as int % 10),
            ));
            assert(m as int == mag as int / 10);
            assert(dec_digits(m as int).push(digit_char(mag as int % 10)) =~= dec_digits(m as int)
                + digit_stack_text(digits@));
        } else {
            assert(mag < 10);
            assert(dec_digits(mag as int) == seq![digit_char(mag as int)]);
            assert(dec_digits(mag as int) =~= digit_stack_text(digits@));
        }
    }
    while m > 0
        invariant
            digits@.len() >= 1,
            forall|j: int| 0 <= j < digits@.len() ==> digits@[j] < 10,
            if m > 0 {
                dec_digits(mag as int) == dec_digits(m as int) + digit_stack_text(digits@)
            } else {
                dec_digits(mag as int) == digit_stack_text(digits@)
            },
        decreases m,
    {
        let ghost pre = digits@;
        let d = (m % 10) as u8;
        digits.push(d);
        let next = m / 10;
        proof {
            assert(digits@.drop_last() =~= pre);
            assert(digit_stack_text(digits@) == seq![digit_char(d as int)] + digit_stack_text(pre));
            if next > 0 {
                assert(dec_digits(m as int) == dec_digits(next as int).push(
                    digit_char(m as int % 10),
                ));
                assert(dec_digits(next as int).push(digit_char(m as int % 10))
                    + digit_stack_text(pre) =~= dec_digits(next as int) + digit_stack_text(
                    digits@,
                ));
            } else {
                assert(dec_digits(m as int) == seq![digit_char(m as int)]);
                assert(seq![digit_char(m as int)] + digit_stack_text(pre) =~= digit_stack_text(
                    digits@,
                ));
            }
        }
        m = next;
    }
    let mut r = String::new();
    if n < 0 {
        r.push('-');
    }
    let ghost head = r@;
    let k = digits.len();
    let mut j: usize = 0;
    proof {
        assert(digits@.take(k as int) =~= digits@);
    }
    while j < k
        invariant
            k == digits@.len(),
            j <= k,
            forall|l: int| 0 <= l < k ==> digits@[l] < 10,
            dec_digits(mag as int) == digit_stack_text(digits@),
            head + digit_stack_text(digits@) == r@ + digit_stack_text(
                digits@.take(k - j as int),
            ),
        decreases k - j,
    {
        let d = digits[k - 1 - j];
        let c = (48 + d) as char;
        let ghost r_pre = r@;
        r.push(c);
        proof {
            let rest = digits@.take(k - j as int);
            assert(rest.drop_last() =~= digits@.take(k - j as int - 1));
            assert(rest.last() == digits@[k - 1 - j as int]);
            assert(c == digit_char(d as int));
            assert(digit_stack_text(rest) == seq![c] + digit_stack_text(
                digits@.take(k - j as int - 1),
            ));
            assert(r_pre + digit_stack_text(rest) =~= r@ + digit_stack_text(
                digits@.take(k - j as int - 1),
            ));
        }
        j += 1;
    }
    proof {
        assert(digit_stack_text(digits@.take(0)) =~= Seq::<char>::empty());
        assert(r@ =~= head + digit_stack_text(digits@));
        if n < 0 {
            assert(head =~= seq!['-']);
            assert(mag == -(n as int));
        } else {
            assert(head =~= Seq::<char>::empty());
            assert(r@ =~= dec_digits(mag as int));
        }
    }
    r
}

/// Decide whether a live match is a demotion game: the player sits at zero
/// points in a division written with Roman numerals I, II or III. A pure
/// function of the rank snapshot.
pub fn is_demotion_game(lp: Option<i64>, division: &Option<String>) -> (r: bool)
    ensures
        r == match *division {
            Some(ref d) => lp == Some(0i64) && (contains_seq(d@, "I"@) || contains_seq(d@, "II"@)
                || contains_seq(d@, "III"@)),
            None => false,
        },
{
    match (lp, division) {
        (Some(l), Some(d)) => l == 0 && (contains_substring(d.as_str(), "I")
            || contains_substring(d.as_str(), "II") || contains_substring(d.as_str(), "III")),
        _ => false,
    }
}

} // verus!
