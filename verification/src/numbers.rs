//! Numbers written as text.
use vstd::prelude::*;

verus! {

/// The risk score that stands for certainty. Risk scores count ten-thousandths:
/// a score of `RISK_ONE` is a risk of one.
pub const RISK_ONE: i64 = 10_000;

/// The decimal digit of a number below ten.
pub open spec fn digit(d: nat) -> char {
    (48 + d) as char
}

/// A number in decimal digits.
pub open spec fn decimal(n: nat) -> Seq<char>
    decreases n,
{
    if n < 10 {
        seq![digit(n)]
    } else {
        decimal(n / 10).push(digit(n % 10))
    }
}

/// The digits of a number.
pub proof fn lemma_decimal_digits(n: nat)
    ensures
        forall|i: int|
            0 <= i < decimal(n).len() ==> '0' <= #[trigger] decimal(n)[i] <= '9',
    decreases n,
{
    let d = decimal(n);
    if n >= 10 {
        lemma_decimal_digits(n / 10);
        assert forall|i: int| 0 <= i < d.len() implies '0' <= #[trigger] d[i] <= '9' by {
            if i < d.len() - 1 {
                assert(d[i] == decimal(n / 10)[i]);
            } else {
                assert(d[i] == digit(n % 10));
            }
        }
    }
}

/// The hexadecimal digit of a number below sixteen, in capitals.
pub open spec fn hex_digit(d: nat) -> char {
    if d < 10 {
        (48 + d) as char
    } else {
        (55 + d) as char
    }
}

/// A number in hexadecimal digits.
pub open spec fn hexadecimal(n: nat) -> Seq<char>
    decreases n,
{
    if n < 16 {
        seq![hex_digit(n)]
    } else {
        hexadecimal(n / 16).push(hex_digit(n % 16))
    }
}

/// The last `width` hexadecimal digits of a number.
pub open spec fn hexadecimal_padded(n: nat, width: nat) -> Seq<char>
    decreases width,
{
    if width == 0 {
        Seq::empty()
    } else {
        hexadecimal_padded(n / 16, (width - 1) as nat).push(hex_digit(n % 16))
    }
}

/// `n / unit` to the nearest whole number, a tie to the even one.
pub open spec fn rounded(n: nat, unit: nat) -> nat {
    let q = n / unit;
    let r = n % unit;
    if 2 * r < unit || (2 * r == unit && q % 2 == 0) {
        q
    } else {
        q + 1
    }
}

/// A count of hundredths with two decimals.
pub open spec fn hundredths(h: nat) -> Seq<char> {
    decimal(h / 100) + "."@ + seq![digit(h % 100 / 10), digit(h % 10)]
}

/// A risk score with two decimals.
pub open spec fn risk_text(risk: int) -> Seq<char> {
    if risk < 0 {
        "-"@ + hundredths(rounded((-risk) as nat, 100))
    } else {
        hundredths(rounded(risk as nat, 100))
    }
}

/// An entropy, counted in thousand-millionths of a bit, with two decimals.
pub open spec fn entropy_text(nanobits: nat) -> Seq<char> {
    hundredths(rounded(nanobits, 10_000_000))
}

/// Appends a number in decimal digits.
pub fn push_decimal(out: &mut String, n: u64)
    ensures
        final(out)@ == old(out)@ + decimal(n as nat),
    decreases n,
{
    if n >= 10 {
        push_decimal(out, n / 10);
        let d: u8 = (n % 10) as u8;
        out.push((48 + d) as char);
        assert(out@ =~= old(out)@ + decimal(n as nat));
    } else {
        let d: u8 = n as u8;
        out.push((48 + d) as char);
        assert(out@ =~= old(out)@ + decimal(n as nat));
    }
}

/// A number in decimal digits.
pub fn decimal_of(n: u64) -> (r: String)
    ensures
        r@ == decimal(n as nat),
{
    let mut out: String = String::new();
    push_decimal(&mut out, n);
    assert(Seq::<char>::empty() + decimal(n as nat) =~= decimal(n as nat));
    out
}

/// The hexadecimal digit of a number below sixteen, in capitals.
fn hex_char(d: u8) -> (r: char)
    requires
        d < 16,
    ensures
        r == hex_digit(d as nat),
{
    if d < 10 {
        (48 + d) as char
    } else {
        (55 + d) as char
    }
}

/// Appends a number in hexadecimal digits.
pub fn push_hexadecimal(out: &mut String, n: u64)
    ensures
        final(out)@ == old(out)@ + hexadecimal(n as nat),
    decreases n,
{
    if n >= 16 {
        push_hexadecimal(out, n / 16);
        out.push(hex_char((n % 16) as u8));
        assert(out@ =~= old(out)@ + hexadecimal(n as nat));
    } else {
        out.push(hex_char(n as u8));
        assert(out@ =~= old(out)@ + hexadecimal(n as nat));
    }
}

/// Appends the last `width` hexadecimal digits of a number.
pub fn push_hexadecimal_padded(out: &mut String, n: u64, width: u8)
    ensures
        final(out)@ == old(out)@ + hexadecimal_padded(n as nat, width as nat),
    decreases width,
{
    if width > 0 {
        push_hexadecimal_padded(out, n / 16, width - 1);
        out.push(hex_char((n % 16) as u8));
    }
    assert(out@ =~= old(out)@ + hexadecimal_padded(n as nat, width as nat));
}

/// `n / unit` to the nearest whole number, a tie to the even one.
pub fn round(n: u128, unit: u128) -> (r: u128)
    requires
        0 < unit <= 0x1_0000_0000_0000,
        n <= 0x1_0000_0000_0000_0000_0000,
    ensures
        r == rounded(n as nat, unit as nat),
        r <= n / unit + 1,
{
    let q: u128 = n / unit;
    let r: u128 = n % unit;
    assert(q <= n) by (nonlinear_arith)
        requires
            q == n / unit,
            unit >= 1,
    ;
    if 2 * r < unit || (2 * r == unit && q % 2 == 0) {
        q
    } else {
        q + 1
    }
}

/// Appends a count of hundredths with two decimals.
fn push_hundredths(out: &mut String, h: u64)
    ensures
        final(out)@ == old(out)@ + hundredths(h as nat),
{
    push_decimal(out, h / 100);
    out.append(".");
    let tens: u8 = (h % 100 / 10) as u8;
    let ones: u8 = (h % 10) as u8;
    out.push((48 + tens) as char);
    out.push((48 + ones) as char);
    assert(out@ =~= old(out)@ + hundredths(h as nat));
}

/// Appends a risk score with two decimals.
pub fn push_risk(out: &mut String, risk: i64)
    ensures
        final(out)@ == old(out)@ + risk_text(risk as int),
{
    let size: u128 = if risk < 0 {
        out.append("-");
        let wide: i128 = risk as i128;
        (-wide) as u128
    } else {
        risk as u128
    };
    let h: u128 = round(size, 100);
    push_hundredths(out, h as u64);
    assert(out@ =~= old(out)@ + risk_text(risk as int));
}

/// A risk score with two decimals.
pub fn risk_text_of(risk: i64) -> (r: String)
    ensures
        r@ == risk_text(risk as int),
{
    let mut out: String = String::new();
    push_risk(&mut out, risk);
    assert(Seq::<char>::empty() + risk_text(risk as int) =~= risk_text(risk as int));
    out
}

/// Appends an entropy with two decimals.
pub fn push_entropy(out: &mut String, nanobits: u64)
    ensures
        final(out)@ == old(out)@ + entropy_text(nanobits as nat),
{
    let h: u128 = round(nanobits as u128, 10_000_000);
    push_hundredths(out, h as u64);
}

/// The power of 1024 by which a size is divided before it is shown.
pub open spec fn byte_scale(n: nat) -> nat {
    if n < 1024 {
        1
    } else if n < 1_048_576 {
        1024
    } else if n < 1_073_741_824 {
        1_048_576
    } else if n < 1_099_511_627_776 {
        1_073_741_824
    } else {
        1_099_511_627_776
    }
}

/// The unit in which a size is shown.
pub open spec fn byte_unit(n: nat) -> Seq<char> {
    if n < 1024 {
        " B"@
    } else if n < 1_048_576 {
        " KB"@
    } else if n < 1_073_741_824 {
        " MB"@
    } else if n < 1_099_511_627_776 {
        " GB"@
    } else {
        " TB"@
    }
}

/// A size for people to read: bytes as they are, anything larger in the
/// greatest unit up to terabytes that it reaches, with one decimal.
pub open spec fn human_size(n: nat) -> Seq<char> {
    if n < 1024 {
        decimal(n) + byte_unit(n)
    } else {
        let tenths = rounded(10 * n, byte_scale(n));
        decimal(tenths / 10) + "."@ + seq![digit(tenths % 10)] + byte_unit(n)
    }
}

/// Appends a size for people to read.
pub fn push_human_bytes(out: &mut String, n: u64)
    ensures
        final(out)@ == old(out)@ + human_size(n as nat),
{
    if n < 1024 {
        push_decimal(out, n);
        out.append(" B");
        assert(out@ =~= old(out)@ + human_size(n as nat));
        return;
    }
    let scale: u128 = if n < 1_048_576 {
        1024
    } else if n < 1_073_741_824 {
        1_048_576
    } else if n < 1_099_511_627_776 {
        1_073_741_824
    } else {
        1_099_511_627_776
    };
    let tenths: u128 = round(10 * (n as u128), scale);
    assert((10 * n) / (scale as int) <= 10 * n) by (nonlinear_arith)
        requires
            scale >= 1,
            n >= 0,
    ;
    assert((10 * n) / (scale as int) <= 0xFFFF_FFFF_FFFF_FFF) by (nonlinear_arith)
        requires
            scale >= 1024,
            0 <= n <= 0xFFFF_FFFF_FFFF_FFFF,
    ;
    push_decimal(out, (tenths / 10) as u64);
    out.append(".");
    let ones: u8 = (tenths % 10) as u8;
    out.push((48 + ones) as char);
    if n < 1_048_576 {
        out.append(" KB");
    } else if n < 1_073_741_824 {
        out.append(" MB");
    } else if n < 1_099_511_627_776 {
        out.append(" GB");
    } else {
        out.append(" TB");
    }
    assert(out@ =~= old(out)@ + human_size(n as nat));
}

/// A size for people to read.
pub fn human_bytes(n: u64) -> (r: String)
    ensures
        r@ == human_size(n as nat),
{
    let mut out: String = String::new();
    push_human_bytes(&mut out, n);
    assert(Seq::<char>::empty() + human_size(n as nat) =~= human_size(n as nat));
    out
}

// ---------------------------------------------------------------------------
// Laws
// ---------------------------------------------------------------------------

/// The number that decimal digits stand for.
pub open spec fn decimal_value(s: Seq<char>) -> int
    decreases s.len(),
{
    if s.len() == 0 {
        0
    } else {
        10 * decimal_value(s.drop_last()) + (s.last() as int - '0' as int)
    }
}

/// The digits of a number read as that number, and none leads that stands for
/// nothing.
pub proof fn law_decimal_digits_read_as_the_number(n: nat)
    ensures
        decimal_value(decimal(n)) == n,
        decimal(n).len() > 0,
        n > 0 ==> decimal(n)[0] != '0',
    decreases n,
{
    let d = decimal(n);
    if n < 10 {
        assert(d.drop_last() =~= Seq::<char>::empty());
        assert(decimal_value(d.drop_last()) == 0);
    } else {
        law_decimal_digits_read_as_the_number(n / 10);
        assert(d.drop_last() =~= decimal(n / 10));
    }
}

/// What a hexadecimal digit stands for.
pub open spec fn hex_value(c: char) -> int {
    if c <= '9' {
        c as int - '0' as int
    } else {
        c as int - 'A' as int + 10
    }
}

/// The number that hexadecimal digits stand for.
pub open spec fn hexadecimal_value(s: Seq<char>) -> int
    decreases s.len(),
{
    if s.len() == 0 {
        0
    } else {
        16 * hexadecimal_value(s.drop_last()) + hex_value(s.last())
    }
}

/// A power of sixteen.
pub open spec fn sixteen_to(width: nat) -> nat
    decreases width,
{
    if width == 0 {
        1
    } else {
        16 * sixteen_to((width - 1) as nat)
    }
}

/// Hexadecimal digits read as the number that was written. A fixed number of
/// them holds every number that they have room for.
pub proof fn law_hexadecimal_digits_read_as_the_number(n: nat, width: nat)
    ensures
        hexadecimal_value(hexadecimal(n)) == n,
        hexadecimal_padded(n, width).len() == width,
        n < sixteen_to(width) ==> hexadecimal_value(hexadecimal_padded(n, width)) == n,
    decreases n + width,
{
    let d = hexadecimal(n);
    if n < 16 {
        assert(d.drop_last() =~= Seq::<char>::empty());
        assert(hexadecimal_value(d.drop_last()) == 0);
    } else {
        law_hexadecimal_digits_read_as_the_number(n / 16, 0);
        assert(d.drop_last() =~= hexadecimal(n / 16));
    }
    if width > 0 {
        law_hexadecimal_digits_read_as_the_number(n / 16, (width - 1) as nat);
        let p = hexadecimal_padded(n, width);
        assert(p.drop_last() =~= hexadecimal_padded(n / 16, (width - 1) as nat));
        if n < sixteen_to(width) {
            assert(n / 16 < sixteen_to((width - 1) as nat));
        }
    }
}

/// Rounding goes to the nearest whole number, and from the middle between two to
/// the even one.
pub proof fn law_rounding_goes_to_the_nearest(n: nat, unit: nat)
    requires
        unit > 0,
    ensures
        -(unit as int) <= 2 * (unit * rounded(n, unit) - n) <= unit,
        (2 * (unit * rounded(n, unit) - n) == unit || 2 * (n - unit * rounded(n, unit)) == unit)
            ==> rounded(n, unit) % 2 == 0,
{
    let q = n / unit;
    let r = n % unit;
    assert(n == unit * q + r && r < unit) by (nonlinear_arith)
        requires
            unit > 0,
            q == n / unit,
            r == n % unit,
    ;
    assert(unit * (q + 1) == unit * q + unit) by (nonlinear_arith);
}

/// A risk is written as its hundredths: the digits before and behind the point,
/// read together, are the nearest hundredth, and a negative one has its sign.
pub proof fn law_a_risk_is_written_in_hundredths(risk: int)
    ensures
        ({
            let h = rounded(
                (if risk < 0 {
                    -risk
                } else {
                    risk
                }) as nat,
                100,
            );
            let t = risk_text(risk);
            let from = if risk < 0 {
                1int
            } else {
                0
            };
            let point = t.len() - 3;
            &&& risk < 0 ==> t[0] == '-'
            &&& t.len() >= from + 4
            &&& t[point] == '.'
            &&& decimal_value(t.subrange(from, point)) == h / 100
            &&& t[point + 1] == digit(h / 10 % 10) && t[point + 2] == digit(h % 10)
        }),
{
    reveal_strlit("-");
    reveal_strlit(".");
    let h = rounded(
        (if risk < 0 {
            -risk
        } else {
            risk
        }) as nat,
        100,
    );
    let from = if risk < 0 {
        1int
    } else {
        0
    };
    let t = risk_text(risk);
    law_decimal_digits_read_as_the_number(h / 100);
    assert(t.subrange(from, t.len() - 3) =~= decimal(h / 100));
}

/// A size is written in the greatest unit that it reaches: bytes as they are,
/// and anything larger to the nearest tenth of its unit.
pub proof fn law_a_size_is_written_in_its_unit(n: nat)
    ensures
        n < 1_024 ==> human_size(n) == decimal(n) + " B"@,
        1_024 <= n < 1_048_576 ==> human_size(n) == tenths_text(n, 1_024) + " KB"@,
        1_048_576 <= n < 1_073_741_824 ==> human_size(n) == tenths_text(n, 1_048_576) + " MB"@,
        1_073_741_824 <= n < 1_099_511_627_776 ==> human_size(n) == tenths_text(n, 1_073_741_824)
            + " GB"@,
        n >= 1_099_511_627_776 ==> human_size(n) == tenths_text(n, 1_099_511_627_776) + " TB"@,
{
}

/// How often a unit goes into a number, to the nearest tenth.
pub open spec fn tenths_text(n: nat, unit: nat) -> Seq<char> {
    decimal(rounded(10 * n, unit) / 10) + "."@ + seq![digit(rounded(10 * n, unit) % 10)]
}

/// An entropy is written in hundredths of a bit, the nearest one.
pub proof fn law_an_entropy_is_written_in_hundredths(nanobits: nat)
    ensures
        entropy_text(nanobits).len() >= 4,
        entropy_text(nanobits)[entropy_text(nanobits).len() - 3] == '.',
        decimal_value(entropy_text(nanobits).take(entropy_text(nanobits).len() - 3)) == rounded(
            nanobits,
            10_000_000,
        ) / 100,
{
    reveal_strlit(".");
    let h = rounded(nanobits, 10_000_000);
    let t = entropy_text(nanobits);
    law_decimal_digits_read_as_the_number(h / 100);
    assert(t.take(t.len() - 3) =~= decimal(h / 100));
}

} // verus!
