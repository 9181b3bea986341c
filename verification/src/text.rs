//! Small verified text helpers shared by the grammar, the display forms and
//! the control protocol: decimal digits, ASCII case folding, and character
//! search.
use vstd::prelude::*;

verus! {

/// The digit character of a value below ten.
pub open spec fn digit_char(d: nat) -> char {
    ((d + 48) as u8) as char
}

/// The numeric value of a digit character.
pub open spec fn digit_val(c: char) -> nat {
    ((c as u32) - 48) as nat
}

pub open spec fn is_digit_char(c: char) -> bool {
    48 <= c as u32 && c as u32 <= 57
}

/// The canonical decimal form of a number: no sign, no leading zero
/// (except for the number zero itself).
pub open spec fn dec_digits(n: nat) -> Seq<char>
    decreases n,
{
    if n < 10 {
        seq![digit_char(n)]
    } else {
        dec_digits(n / 10) + seq![digit_char(n % 10)]
    }
}

/// The numeric value of a digit string, read left to right.
pub open spec fn dec_val(s: Seq<char>) -> nat
    decreases s.len(),
{
    if s.len() == 0 {
        0
    } else {
        dec_val(s.drop_last()) * 10 + digit_val(s.last())
    }
}

pub open spec fn all_digits(s: Seq<char>) -> bool {
    forall|i: int| 0 <= i < s.len() ==> is_digit_char(#[trigger] s[i])
}

pub proof fn lemma_dec_digits_are_digits(n: nat)
    ensures
        all_digits(dec_digits(n)),
        dec_digits(n).len() >= 1,
    decreases n,
{
    if n < 10 {
        assert(is_digit_char(digit_char(n)));
    } else {
        lemma_dec_digits_are_digits(n / 10);
        assert(is_digit_char(digit_char(n % 10)));
        assert forall|i: int| 0 <= i < dec_digits(n).len() implies is_digit_char(
            #[trigger] dec_digits(n)[i],
        ) by {
            if i < dec_digits(n / 10).len() {
                assert(dec_digits(n)[i] == dec_digits(n / 10)[i]);
            }
        }
    }
}

/// Reading back the canonical decimal form gives the number itself.
pub proof fn lemma_dec_val_of_digits(n: nat)
    ensures
        dec_val(dec_digits(n)) == n,
    decreases n,
{
    if n < 10 {
        let s = dec_digits(n);
        assert(s =~= seq![digit_char(n)]);
        assert(s.len() == 1);
        assert(s.last() == digit_char(n));
        assert(s.drop_last() =~= Seq::<char>::empty());
        assert(dec_val(s.drop_last()) == 0);
        assert(dec_val(s) == dec_val(s.drop_last()) * 10 + digit_val(s.last()));
        assert(digit_val(digit_char(n)) == n);
    } else {
        lemma_dec_val_of_digits(n / 10);
        let whole = dec_digits(n);
        assert(whole == dec_digits(n / 10) + seq![digit_char(n % 10)]);
        assert(whole.len() >= 1);
        assert(whole.drop_last() =~= dec_digits(n / 10));
        assert(whole.last() == digit_char(n % 10));
        assert(dec_val(whole) == dec_val(whole.drop_last()) * 10 + digit_val(whole.last()));
        assert(dec_val(whole.drop_last()) == n / 10);
        assert(digit_val(digit_char(n % 10)) == n % 10);
        assert(n == (n / 10) * 10 + n % 10) by (nonlinear_arith);
        assert(dec_val(whole) == n);
    }
}

/// Appending one digit multiplies the value by ten and adds the digit.
pub proof fn lemma_dec_val_push(s: Seq<char>, c: char)
    ensures
        dec_val(s.push(c)) == dec_val(s) * 10 + digit_val(c),
{
    assert(s.push(c).drop_last() =~= s);
    assert(s.push(c).last() == c);
}

/// ASCII lower-casing of one character.
pub open spec fn lower_char(c: char) -> char {
    if 65 <= c as u32 && c as u32 <= 90 {
        (((c as u32) + 32) as u8) as char
    } else {
        c
    }
}

/// ASCII lower-casing of a character sequence.
pub open spec fn spec_lower(s: Seq<char>) -> Seq<char> {
    s.map_values(|c: char| lower_char(c))
}

pub fn to_lower_char(c: char) -> (r: char)
    ensures
        r == lower_char(c),
{
    let n = c as u32;
    if 65 <= n && n <= 90 {
        ((n + 32) as u8) as char
    } else {
        c
    }
}

/// Compares two strings for equality after ASCII lower-casing both.
pub fn eq_ignore_ascii_case(s: &str, t: &str) -> (r: bool)
    ensures
        r == (spec_lower(s@) == spec_lower(t@)),
{
    let s_len = s.unicode_len();
    let t_len = t.unicode_len();
    if s_len != t_len {
        assert(spec_lower(s@).len() != spec_lower(t@).len());
        return false;
    }
    let mut i: usize = 0;
    while i < s_len
        invariant
            i <= s_len,
            s_len == s@.len(),
            s_len == t@.len(),
            forall|j: int| 0 <= j < i ==> lower_char(s@[j]) == lower_char(t@[j]),
        decreases s_len - i,
    {
        let cs = s.get_char(i);
        let ct = t.get_char(i);
        if to_lower_char(cs) != to_lower_char(ct) {
            assert(spec_lower(s@)[i as int] != spec_lower(t@)[i as int]);
            return false;
        }
        i += 1;
    }
    proof {
        assert(spec_lower(s@) =~= spec_lower(t@));
    }
    true
}

/// Whether the string holds the given character.
pub fn contains_char(s: &str, c: char) -> (r: bool)
    ensures
        r == s@.contains(c),
{
    let len = s.unicode_len();
    let mut i: usize = 0;
    while i < len
        invariant
            i <= len,
            len == s@.len(),
            forall|j: int| 0 <= j < i ==> s@[j] != c,
        decreases len - i,
    {
        if s.get_char(i) == c {
            return true;
        }
        i += 1;
    }
    assert(!s@.contains(c)) by {
        if s@.contains(c) {
            let k = choose|k: int| 0 <= k < s@.len() && s@[k] == c;
        }
    }
    false
}

fn digit_to_str(d: u8) -> (r: &'static str)
    requires
        d < 10,
    ensures
        r@ =~= seq![digit_char(d as nat)],
{
    proof {
        reveal_strlit("0");
        reveal_strlit("1");
        reveal_strlit("2");
        reveal_strlit("3");
        reveal_strlit("4");
        reveal_strlit("5");
        reveal_strlit("6");
        reveal_strlit("7");
        reveal_strlit("8");
        reveal_strlit("9");
    }
    match d {
        0 => "0",
        1 => "1",
        2 => "2",
        3 => "3",
        4 => "4",
        5 => "5",
        6 => "6",
        7 => "7",
        8 => "8",
        _ => "9",
    }
}

/// Appends the canonical decimal form of `n` to `out`.
pub fn push_dec(n: u64, out: &mut String)
    ensures
        final(out)@ == old(out)@ + dec_digits(n as nat),
    decreases n,
{
    if n >= 10 {
        push_dec(n / 10, out);
        let d = digit_to_str((n % 10) as u8);
        out.append(d);
        proof {
            assert(out@ =~= old(out)@ + dec_digits(n as nat));
        }
    } else {
        let d = digit_to_str(n as u8);
        out.append(d);
        proof {
            assert(out@ =~= old(out)@ + dec_digits(n as nat));
        }
    }
}

/// The canonical decimal form of `n` as a fresh string.
pub fn dec_string(n: u64) -> (r: String)
    ensures
        r@ == dec_digits(n as nat),
{
    let mut out = String::new();
    push_dec(n, &mut out);
    proof {
        assert(out@ =~= dec_digits(n as nat));
    }
    out
}

} // verus!
