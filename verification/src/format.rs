use vstd::prelude::*;

verus! {

use vstd::math::abs;

/// The ASCII digits of `n` in base ten, most significant first.
pub open spec fn dec_digits(n: nat) -> Seq<u8>
    decreases n,
{
    if n < 10 {
        seq![(48 + n) as u8]
    } else {
        dec_digits(n / 10).push((48 + n % 10) as u8)
    }
}

/// `c` hundredths rounded to the nearest tenth; halves round away from zero.
pub open spec fn round_tenths(c: int) -> int {
    if c >= 0 {
        (c + 5) / 10
    } else {
        -((-c + 5) / 10)
    }
}

/// `c` hundredths rounded to the nearest whole unit; halves round away from zero.
pub open spec fn round_whole(c: int) -> int {
    if c >= 0 {
        (c + 50) / 100
    } else {
        -((-c + 50) / 100)
    }
}

/// The rendering of `c` hundredths with exactly one decimal place:
/// a minus sign for negative results, the whole part, a dot, one digit.
pub open spec fn spec_fmt_tenths(c: int) -> Seq<u8> {
    let t = round_tenths(c);
    let sign: Seq<u8> = if t < 0 {
        seq![45u8]
    } else {
        Seq::<u8>::empty()
    };
    sign + dec_digits((abs(t) / 10) as nat).push(46u8).push((48 + abs(t) % 10) as u8)
}

/// The rendering of `c` hundredths with no decimal places:
/// a minus sign for negative results, then the digits of the rounded value.
pub open spec fn spec_fmt_whole(c: int) -> Seq<u8> {
    let w = round_whole(c);
    let sign: Seq<u8> = if w < 0 {
        seq![45u8]
    } else {
        Seq::<u8>::empty()
    };
    sign + dec_digits(abs(w) as nat)
}

/// Appends the base-ten digits of `n` to `out`.
fn push_digits(n: u64, out: &mut Vec<u8>)
    ensures
        final(out)@ == old(out)@ + dec_digits(n as nat),
    decreases n,
{
    if n < 10 {
        out.push(48 + n as u8);
        assert(out@ =~= old(out)@ + dec_digits(n as nat));
    } else {
        assert(n / 10 < n);
        push_digits(n / 10, out);
        out.push(48 + (n % 10) as u8);
        assert(out@ =~= old(out)@ + dec_digits(n as nat));
    }
}

/// Renders `c` hundredths with exactly one decimal place, rounding
/// half-away-from-zero: `2346` renders as `23.5`, `-2005` as `-20.1`.
pub fn fmt_tenths(c: i32) -> (r: Vec<u8>)
    ensures
        r@ == spec_fmt_tenths(c as int),
{
    let neg: bool = c < 0;
    let mag: u64 = if c < 0 {
        (-(c as i64)) as u64
    } else {
        c as u64
    };
    let t: u64 = (mag + 5) / 10;
    proof {
        assert(mag == abs(c as int));
        assert(t == abs(round_tenths(c as int)));
        assert(round_tenths(c as int) < 0 <==> (neg && t > 0));
    }
    let mut out: Vec<u8> = Vec::new();
    if neg && t > 0 {
        out.push(45);
    }
    push_digits(t / 10, &mut out);
    out.push(46);
    out.push(48 + (t % 10) as u8);
    proof {
        assert(out@ =~= spec_fmt_tenths(c as int));
    }
    out
}

/// Renders `c` hundredths rounded to a whole number of units,
/// half-away-from-zero: `101340` renders as `1013`, `99950` as `1000`.
pub fn fmt_whole(c: i32) -> (r: Vec<u8>)
    ensures
        r@ == spec_fmt_whole(c as int),
{
    let neg: bool = c < 0;
    let mag: u64 = if c < 0 {
        (-(c as i64)) as u64
    } else {
        c as u64
    };
    let w: u64 = (mag + 50) / 100;
    proof {
        assert(mag == abs(c as int));
        assert(w == abs(round_whole(c as int)));
        assert(round_whole(c as int) < 0 <==> (neg && w > 0));
    }
    let mut out: Vec<u8> = Vec::new();
    if neg && w > 0 {
        out.push(45);
    }
    push_digits(w, &mut out);
    proof {
        assert(out@ =~= spec_fmt_whole(c as int));
    }
    out
}

} // verus!
