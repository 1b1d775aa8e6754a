//! Decimal text: printing and parsing of unsigned numbers.
//!
//! Bind URIs and the socket wire format both carry decimal numbers.
//! `dec_digits` is the canonical printed form of a number, `dec_val`
//! the value of a digit string; the round-trip lemmas tie them
//! together.

use vstd::prelude::*;

verus! {

/// Whether a character is a decimal digit.
pub open spec fn is_digit_char(c: char) -> bool {
    48 <= c as u32 <= 57
}

/// The numeric value of a decimal digit character.
pub open spec fn digit_val(c: char) -> nat {
    (c as u32 - 48) as nat
}

/// The digit character for a value below ten.
pub open spec fn char_of_digit(d: nat) -> char {
    if d == 0 {
        '0'
    } else if d == 1 {
        '1'
    } else if d == 2 {
        '2'
    } else if d == 3 {
        '3'
    } else if d == 4 {
        '4'
    } else if d == 5 {
        '5'
    } else if d == 6 {
        '6'
    } else if d == 7 {
        '7'
    } else if d == 8 {
        '8'
    } else {
        '9'
    }
}

/// Canonical decimal form of a number: no sign, no leading zero except
/// for zero itself.
pub open spec fn dec_digits(n: nat) -> Seq<char>
    decreases n,
{
    if n < 10 {
        seq![char_of_digit(n)]
    } else {
        dec_digits(n / 10).push(char_of_digit(n % 10))
    }
}

/// Whether every character of a sequence is a decimal digit.
pub open spec fn all_digits(s: Seq<char>) -> bool {
    forall|i: int| 0 <= i < s.len() ==> is_digit_char(#[trigger] s[i])
}

/// The value of a digit string, most significant digit first.
pub open spec fn dec_val(s: Seq<char>) -> nat
    decreases s.len(),
{
    if s.len() == 0 {
        0
    } else {
        dec_val(s.drop_last()) * 10 + digit_val(s.last())
    }
}

/// What parsing an unsigned decimal means: at least one character, all
/// digits (leading zeros allowed, as the standard integer parser
/// allows them), and the value within the given bound.
pub open spec fn parse_dec_bounded(s: Seq<char>, bound: nat) -> Option<nat> {
    if s.len() >= 1 && all_digits(s) && dec_val(s) <= bound {
        Some(dec_val(s))
    } else {
        None
    }
}

/// Digit characters round-trip through their value.
pub proof fn lemma_char_of_digit_val(d: nat)
    requires
        d < 10,
    ensures
        is_digit_char(char_of_digit(d)),
        digit_val(char_of_digit(d)) == d,
{
}

/// The canonical form of a number consists of digits only.
pub proof fn lemma_dec_digits_all_digits(n: nat)
    ensures
        dec_digits(n).len() >= 1,
        all_digits(dec_digits(n)),
    decreases n,
{
    if n < 10 {
        lemma_char_of_digit_val(n);
    } else {
        lemma_dec_digits_all_digits(n / 10);
        lemma_char_of_digit_val(n % 10);
        assert(dec_digits(n) == dec_digits(n / 10).push(char_of_digit(n % 10)));
        assert forall|i: int| 0 <= i < dec_digits(n).len() implies is_digit_char(
            #[trigger] dec_digits(n)[i],
        ) by {
            if i < dec_digits(n / 10).len() {
                assert(dec_digits(n)[i] == dec_digits(n / 10)[i]);
            } else {
                assert(dec_digits(n)[i] == char_of_digit(n % 10));
            }
        }
    }
}

/// The value of the canonical form of a number is the number.
pub proof fn lemma_dec_val_of_digits(n: nat)
    ensures
        dec_val(dec_digits(n)) == n,
    decreases n,
{
    if n < 10 {
        lemma_char_of_digit_val(n);
        assert(dec_digits(n) == seq![char_of_digit(n)]);
        assert(dec_digits(n).drop_last() =~= Seq::<char>::empty());
        assert(dec_digits(n).last() == char_of_digit(n));
        assert(dec_val(dec_digits(n)) == dec_val(Seq::<char>::empty()) * 10 + digit_val(
            char_of_digit(n),
        ));
    } else {
        lemma_dec_val_of_digits(n / 10);
        lemma_char_of_digit_val(n % 10);
        assert(dec_digits(n).drop_last() =~= dec_digits(n / 10));
        assert(dec_digits(n).last() == char_of_digit(n % 10));
    }
}

/// The canonical form has no leading zero, except for zero itself.
pub proof fn lemma_dec_digits_no_leading_zero(n: nat)
    ensures
        n > 0 ==> dec_digits(n)[0] != '0',
        n == 0 ==> dec_digits(n) == seq!['0'],
    decreases n,
{
    if n < 10 {
    } else {
        lemma_dec_digits_no_leading_zero(n / 10);
        lemma_dec_digits_all_digits(n / 10);
        assert(dec_digits(n)[0] == dec_digits(n / 10)[0]);
    }
}

/// Parsing the canonical form of a number yields the number back.
pub proof fn lemma_dec_round_trip(n: nat, bound: nat)
    requires
        n <= bound,
    ensures
        parse_dec_bounded(dec_digits(n), bound) == Some(n),
{
    lemma_dec_digits_all_digits(n);
    lemma_dec_val_of_digits(n);
}

/// The digit character for a value below ten, as a one-character string.
pub fn digit_str(d: u64) -> (r: &'static str)
    requires
        d < 10,
    ensures
        r@ == seq![char_of_digit(d as nat)],
{
    proof {
        reveal_strlit("0");
        reveal_strlit("1");
        reveal_strlit("2");
        reveal_strlit("3");
        reveal_strlit("4");
        reveal_strlit("5");
        reveal_strlit("6");
        reveal_strlit("7");
        reveal_strlit("8");
        reveal_strlit("9");
    }
    let r = match d {
        0 => "0",
        1 => "1",
        2 => "2",
        3 => "3",
        4 => "4",
        5 => "5",
        6 => "6",
        7 => "7",
        8 => "8",
        _ => "9",
    };
    proof {
        assert(r@ =~= seq![char_of_digit(d as nat)]);
    }
    r
}

/// Print a number in its canonical decimal form.
pub fn dec_u64(n: u64) -> (r: String)
    ensures
        r@ == dec_digits(n as nat),
    decreases n,
{
    if n < 10 {
        let s = digit_str(n);
        let r = s.to_owned();
        r
    } else {
        let prefix = dec_u64(n / 10);
        let last = digit_str(n % 10);
        let r = prefix.concat(last);
        proof {
            assert(r@ =~= dec_digits((n / 10) as nat).push(char_of_digit((n % 10) as nat)));
        }
        r
    }
}

/// Parse an unsigned decimal with the given bound; `None` on an empty
/// string, a non-digit, or a value above the bound.
pub fn parse_dec_u64(s: &str, from: usize, to: usize, bound: u64) -> (r: Option<u64>)
    requires
        from <= to <= s@.len(),
        bound <= 0xFFFF_FFFF,
    ensures
        match r {
            Some(v) => parse_dec_bounded(s@.subrange(from as int, to as int), bound as nat)
                == Some(v as nat) && v <= bound,
            None => parse_dec_bounded(s@.subrange(from as int, to as int), bound as nat)
                is None,
        },
{
    let ghost sub = s@.subrange(from as int, to as int);
    if from == to {
        return None;
    }
    let mut acc: u64 = 0;
    let mut big: bool = false;
    let mut i: usize = from;
    while i < to
        invariant
            from <= i <= to <= s@.len(),
            sub == s@.subrange(from as int, to as int),
            all_digits(s@.subrange(from as int, i as int)),
            !big ==> acc as nat == dec_val(s@.subrange(from as int, i as int)) && acc <= bound,
            big ==> dec_val(s@.subrange(from as int, i as int)) > bound,
            bound <= 0xFFFF_FFFF,
        decreases to - i,
    {
        let c = s.get_char(i);
        let cv = c as u32;
        if cv < 48 || cv > 57 {
            proof {
                assert(sub[i - from] == s@[i as int]);
                assert(!is_digit_char(sub[i - from]));
            }
            return None;
        }
        let d = (cv - 48) as u64;
        let ghost prev = s@.subrange(from as int, i as int);
        proof {
            assert(s@.subrange(from as int, i as int + 1) =~= prev.push(s@[i as int]));
            assert(s@.subrange(from as int, i as int + 1).drop_last() =~= prev);
        }
        if big {
            proof {
                assert(dec_val(s@.subrange(from as int, i as int + 1)) == dec_val(prev) * 10
                    + digit_val(s@[i as int]));
                assert(dec_val(prev) * 10 >= dec_val(prev)) by (nonlinear_arith)
                    requires dec_val(prev) >= 0;
            }
        } else {
            acc = acc * 10 + d;
            if acc > bound {
                big = true;
            }
        }
        i += 1;
    }
    proof {
        assert(s@.subrange(from as int, i as int) =~= sub);
    }
    if big {
        None
    } else {
        Some(acc)
    }
}

/// First position of a character in a sequence.
pub open spec fn find_char(s: Seq<char>, c: char) -> Option<int>
    decreases s.len(),
{
    if s.len() == 0 {
        None
    } else if s[0] == c {
        Some(0)
    } else {
        match find_char(s.skip(1), c) {
            Some(i) => Some(i + 1),
            None => None,
        }
    }
}

/// What `find_char` returns: the first occurrence, or none at all.
pub proof fn lemma_find_char(s: Seq<char>, c: char)
    ensures
        match find_char(s, c) {
            Some(i) => 0 <= i < s.len() && s[i] == c && forall|j: int|
                0 <= j < i ==> s[j] != c,
            None => forall|j: int| 0 <= j < s.len() ==> s[j] != c,
        },
    decreases s.len(),
{
    if s.len() == 0 {
    } else if s[0] == c {
    } else {
        lemma_find_char(s.skip(1), c);
        assert(forall|j: int| 0 <= j < s.skip(1).len() ==> s.skip(1)[j] == s[j + 1]);
        match find_char(s.skip(1), c) {
            Some(i) => {
                assert(s.skip(1)[i] == c);
                assert(s[i + 1] == c);
                assert forall|j: int| 0 <= j < i + 1 implies s[j] != c by {
                    if j == 0 {
                    } else {
                        assert(s.skip(1)[j - 1] != c);
                    }
                }
            },
            None => {
                assert forall|j: int| 0 <= j < s.len() implies s[j] != c by {
                    if j == 0 {
                    } else {
                        assert(s.skip(1)[j - 1] != c);
                    }
                }
            },
        }
    }
}

/// Search a character inside `[from, to)` of a string.
pub fn find_char_in(s: &str, from: usize, to: usize, c: char) -> (r: Option<usize>)
    requires
        from <= to <= s@.len(),
    ensures
        match find_char(s@.subrange(from as int, to as int), c) {
            Some(i) => r == Some((from + i) as usize),
            None => r is None,
        },
{
    let ghost sub = s@.subrange(from as int, to as int);
    proof {
        lemma_find_char(sub, c);
    }
    let mut i: usize = from;
    while i < to
        invariant
            from <= i <= to <= s@.len(),
            sub == s@.subrange(from as int, to as int),
            forall|j: int| 0 <= j < i - from ==> sub[j] != c,
        decreases to - i,
    {
        if s.get_char(i) == c {
            proof {
                assert(sub[i - from] == s@[i as int]);
                lemma_find_char(sub, c);
                match find_char(sub, c) {
                    Some(k) => {
                        assert(k >= i - from);
                        assert(k <= i - from);
                    },
                    None => {
                        assert(sub[i - from] != c);
                    },
                }
            }
            return Some(i);
        }
        proof {
            assert(sub[i - from] == s@[i as int]);
        }
        i += 1;
    }
    proof {
        if find_char(sub, c) is Some {
            let k = find_char(sub, c)->Some_0;
            assert(sub[k] != c);
        }
    }
    None
}

/// First position of the `://` separator in a sequence.
pub open spec fn find_sep(s: Seq<char>) -> Option<int>
    decreases s.len(),
{
    if s.len() < 3 {
        None
    } else if s[0] == ':' && s[1] == '/' && s[2] == '/' {
        Some(0)
    } else {
        match find_sep(s.skip(1)) {
            Some(i) => Some(i + 1),
            None => None,
        }
    }
}

/// Whether the `://` separator stands at a position.
pub open spec fn sep_at(s: Seq<char>, i: int) -> bool {
    0 <= i && i + 3 <= s.len() && s[i] == ':' && s[i + 1] == '/' && s[i + 2] == '/'
}

/// What `find_sep` returns: the first separator, or none at all.
pub proof fn lemma_find_sep(s: Seq<char>)
    ensures
        match find_sep(s) {
            Some(i) => sep_at(s, i) && forall|j: int| 0 <= j < i ==> !sep_at(s, j),
            None => forall|j: int| !sep_at(s, j),
        },
    decreases s.len(),
{
    if s.len() < 3 {
    } else if s[0] == ':' && s[1] == '/' && s[2] == '/' {
    } else {
        lemma_find_sep(s.skip(1));
        assert(forall|j: int| 0 <= j < s.skip(1).len() ==> s.skip(1)[j] == s[j + 1]);
        match find_sep(s.skip(1)) {
            Some(i) => {
                assert(sep_at(s.skip(1), i));
                assert(sep_at(s, i + 1));
                assert forall|j: int| 0 <= j < i + 1 implies !sep_at(s, j) by {
                    if j == 0 {
                    } else {
                        assert(!sep_at(s.skip(1), j - 1));
                    }
                }
            },
            None => {
                assert forall|j: int| !sep_at(s, j) implies true by {}
                assert forall|j: int| 0 <= j implies !sep_at(s, j) by {
                    if j == 0 {
                    } else {
                        assert(!sep_at(s.skip(1), j - 1));
                    }
                }
            },
        }
    }
}

/// A first occurrence pins `find_char` down.
pub proof fn lemma_find_char_is(s: Seq<char>, c: char, k: int)
    requires
        0 <= k < s.len(),
        s[k] == c,
        forall|j: int| 0 <= j < k ==> s[j] != c,
    ensures
        find_char(s, c) == Some(k),
{
    lemma_find_char(s, c);
    match find_char(s, c) {
        Some(i) => {
            if i < k {
                assert(s[i] == c);
            }
            if i > k {
                assert(s[k] != c);
            }
        },
        None => {
            assert(s[k] != c);
        },
    }
}

/// The absence of a character pins `find_char` down.
pub proof fn lemma_find_char_none(s: Seq<char>, c: char)
    requires
        forall|j: int| 0 <= j < s.len() ==> s[j] != c,
    ensures
        find_char(s, c) is None,
{
    lemma_find_char(s, c);
    match find_char(s, c) {
        Some(i) => {
            assert(s[i] == c);
        },
        None => {},
    }
}

/// A first separator occurrence pins `find_sep` down.
pub proof fn lemma_find_sep_is(s: Seq<char>, k: int)
    requires
        sep_at(s, k),
        forall|j: int| 0 <= j < k ==> !sep_at(s, j),
    ensures
        find_sep(s) == Some(k),
{
    lemma_find_sep(s);
    match find_sep(s) {
        Some(i) => {
            if i < k {
                assert(!sep_at(s, i));
            }
            if i > k {
                assert(!sep_at(s, k));
            }
        },
        None => {
            assert(!sep_at(s, k));
        },
    }
}

/// Search the `://` separator in a string.
pub fn find_sep_in(s: &str) -> (r: Option<usize>)
    ensures
        match find_sep(s@) {
            Some(i) => r == Some(i as usize),
            None => r is None,
        },
{
    proof {
        lemma_find_sep(s@);
    }
    let n = s.unicode_len();
    if n < 3 {
        proof {
            if find_sep(s@) is Some {
                assert(sep_at(s@, find_sep(s@)->Some_0));
            }
        }
        return None;
    }
    let mut i: usize = 0;
    while i <= n - 3
        invariant
            i <= n,
            n == s@.len(),
            n >= 3,
            forall|j: int| 0 <= j < i ==> !sep_at(s@, j),
        decreases n - i,
    {
        if s.get_char(i) == ':' && s.get_char(i + 1) == '/' && s.get_char(i + 2) == '/' {
            proof {
                assert(sep_at(s@, i as int));
                lemma_find_sep(s@);
                match find_sep(s@) {
                    Some(k) => {
                        assert(k >= i);
                        assert(k <= i);
                    },
                    None => {},
                }
            }
            return Some(i);
        }
        proof {
            assert(!sep_at(s@, i as int));
        }
        i += 1;
    }
    proof {
        if find_sep(s@) is Some {
            let k = find_sep(s@)->Some_0;
            assert(sep_at(s@, k));
            assert(k + 3 <= s@.len());
        }
    }
    None
}

/// Character-for-character equality of a string region with a literal.
pub fn region_eq(s: &str, from: usize, to: usize, lit: &str) -> (r: bool)
    requires
        from <= to <= s@.len(),
    ensures
        r == (s@.subrange(from as int, to as int) == lit@),
{
    let ghost sub = s@.subrange(from as int, to as int);
    let litlen = lit.unicode_len();
    if to - from != litlen {
        assert(sub.len() != lit@.len());
        return false;
    }
    let mut i: usize = 0;
    while i < litlen
        invariant
            i <= litlen,
            from + litlen <= to <= s@.len(),
            to - from == litlen,
            litlen == lit@.len(),
            sub == s@.subrange(from as int, to as int),
            forall|j: int| 0 <= j < i ==> sub[j] == lit@[j],
        decreases litlen - i,
    {
        if s.get_char(from + i) != lit.get_char(i) {
            proof {
                assert(sub[i as int] == s@[from + i]);
            }
            return false;
        }
        proof {
            assert(sub[i as int] == s@[from + i]);
        }
        i += 1;
    }
    proof {
        assert(sub =~= lit@);
    }
    true
}

/// Copy a string region into an owned string.
pub fn region_to_string(s: &str, from: usize, to: usize) -> (r: String)
    requires
        from <= to <= s@.len(),
    ensures
        r@ == s@.subrange(from as int, to as int),
{
    let sub = s.substring_char(from, to);
    sub.to_owned()
}

} // verus!
