use vstd::prelude::*;

verus! {

/// Relies on String::push: appends the given character to the end of the
/// string.
#[verifier::external_body]
pub(crate) fn push_char(s: &mut String, c: char)
    ensures
        final(s)@ == old(s)@.push(c),
{
    s.push(c);
}

/// The glyph of one decimal digit.
pub open spec fn digit_char(d: int) -> char {
    if d == 0 {
        '0'
    } else if d == 1 {
        '1'
    } else if d == 2 {
        '2'
    } else if d == 3 {
        '3'
    } else if d == 4 {
        '4'
    } else if d == 5 {
        '5'
    } else if d == 6 {
        '6'
    } else if d == 7 {
        '7'
    } else if d == 8 {
        '8'
    } else {
        '9'
    }
}

/// The decimal notation of a number: its digits, most significant first,
/// with no leading zero except for the number zero itself.
pub open spec fn spec_dec(n: nat) -> Seq<char>
    decreases n,
{
    if n < 10 {
        seq![digit_char(n as int)]
    } else {
        spec_dec(n / 10) + seq![digit_char((n % 10) as int)]
    }
}

fn digit_char_of(d: u32) -> (c: char)
    requires
        d < 10,
    ensures
        c == digit_char(d as int),
{
    if d == 0 {
        '0'
    } else if d == 1 {
        '1'
    } else if d == 2 {
        '2'
    } else if d == 3 {
        '3'
    } else if d == 4 {
        '4'
    } else if d == 5 {
        '5'
    } else if d == 6 {
        '6'
    } else if d == 7 {
        '7'
    } else if d == 8 {
        '8'
    } else {
        '9'
    }
}

/// The decimal notation of `n`.
pub fn u32_dec(n: u32) -> (s: String)
    ensures
        s@ == spec_dec(n as nat),
{
    let mut digits: Vec<char> = Vec::new();
    let mut m: u32 = n;
    while m >= 10
        invariant
            spec_dec(n as nat) == spec_dec(m as nat) + digits@.reverse(),
        decreases m,
    {
        let ghost pre = digits@;
        digits.push(digit_char_of(m % 10));
        proof {
            assert(digits@.drop_last() =~= pre);
            assert(digits@.reverse() =~= seq![digit_char((m % 10) as int)] + pre.reverse());
            assert(spec_dec(m as nat) == spec_dec((m as nat) / 10) + seq![
                digit_char(((m as nat) % 10) as int),
            ]);
            assert(spec_dec(m as nat) + pre.reverse() =~= spec_dec((m as nat) / 10)
                + digits@.reverse());
            assert((m / 10) as nat == (m as nat) / 10);
        }
        m = m / 10;
    }
    let ghost pre = digits@;
    digits.push(digit_char_of(m));
    proof {
        assert(digits@.drop_last() =~= pre);
        assert(digits@.reverse() =~= seq![digit_char(m as int)] + pre.reverse());
        assert(spec_dec(m as nat) == seq![digit_char(m as int)]);
        assert(spec_dec(n as nat) =~= digits@.reverse());
    }
    let mut s = String::new();
    let mut i: usize = digits.len();
    while i > 0
        invariant
            0 <= i <= digits@.len(),
            s@ == digits@.subrange(i as int, digits@.len() as int).reverse(),
        decreases i,
    {
        i = i - 1;
        push_char(&mut s, digits[i]);
        proof {
            assert(s@ =~= digits@.subrange(i as int, digits@.len() as int).reverse());
        }
    }
    proof {
        assert(digits@.subrange(0, digits@.len() as int) == digits@);
    }
    s
}

} // verus!
