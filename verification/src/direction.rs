//! Fixed-point unit directions for headings in whole degrees.

use vstd::prelude::*;

verus! {

/// The fixed-point scale: a component of a unit direction is a whole number
/// of millionths.
pub const SCALE: i64 = 1_000_000;

/// The sine of `d` degrees in millionths, rounded to the nearest, for `d`
/// from 0 to 90. Below 0 it is the value at 0, above 90 the value at 90.
pub open spec fn quarter_sine(d: int) -> int {
    if d <= 0 {
        0
    } else if d == 1 {
        17452
    } else if d == 2 {
        34899
    } else if d == 3 {
        52336
    } else if d == 4 {
        69756
    } else if d == 5 {
        87156
    } else if d == 6 {
        104528
    } else if d == 7 {
        121869
    } else if d == 8 {
        139173
    } else if d == 9 {
        156434
    } else if d == 10 {
        173648
    } else if d == 11 {
        190809
    } else if d == 12 {
        207912
    } else if d == 13 {
        224951
    } else if d == 14 {
        241922
    } else if d == 15 {
        258819
    } else if d == 16 {
        275637
    } else if d == 17 {
        292372
    } else if d == 18 {
        309017
    } else if d == 19 {
        325568
    } else if d == 20 {
        342020
    } else if d == 21 {
        358368
    } else if d == 22 {
        374607
    } else if d == 23 {
        390731
    } else if d == 24 {
        406737
    } else if d == 25 {
        422618
    } else if d == 26 {
        438371
    } else if d == 27 {
        453990
    } else if d == 28 {
        469472
    } else if d == 29 {
        484810
    } else if d == 30 {
        500000
    } else if d == 31 {
        515038
    } else if d == 32 {
        529919
    } else if d == 33 {
        544639
    } else if d == 34 {
        559193
    } else if d == 35 {
        573576
    } else if d == 36 {
        587785
    } else if d == 37 {
        601815
    } else if d == 38 {
        615661
    } else if d == 39 {
        629320
    } else if d == 40 {
        642788
    } else if d == 41 {
        656059
    } else if d == 42 {
        669131
    } else if d == 43 {
        681998
    } else if d == 44 {
        694658
    } else if d == 45 {
        707107
    } else if d == 46 {
        719340
    } else if d == 47 {
        731354
    } else if d == 48 {
        743145
    } else if d == 49 {
        754710
    } else if d == 50 {
        766044
    } else if d == 51 {
        777146
    } else if d == 52 {
        788011
    } else if d == 53 {
        798636
    } else if d == 54 {
        809017
    } else if d == 55 {
        819152
    } else if d == 56 {
        829038
    } else if d == 57 {
        838671
    } else if d == 58 {
        848048
    } else if d == 59 {
        857167
    } else if d == 60 {
        866025
    } else if d == 61 {
        874620
    } else if d == 62 {
        882948
    } else if d == 63 {
        891007
    } else if d == 64 {
        898794
    } else if d == 65 {
        906308
    } else if d == 66 {
        913545
    } else if d == 67 {
        920505
    } else if d == 68 {
        927184
    } else if d == 69 {
        933580
    } else if d == 70 {
        939693
    } else if d == 71 {
        945519
    } else if d == 72 {
        951057
    } else if d == 73 {
        956305
    } else if d == 74 {
        961262
    } else if d == 75 {
        965926
    } else if d == 76 {
        970296
    } else if d == 77 {
        974370
    } else if d == 78 {
        978148
    } else if d == 79 {
        981627
    } else if d == 80 {
        984808
    } else if d == 81 {
        987688
    } else if d == 82 {
        990268
    } else if d == 83 {
        992546
    } else if d == 84 {
        994522
    } else if d == 85 {
        996195
    } else if d == 86 {
        997564
    } else if d == 87 {
        998630
    } else if d == 88 {
        999391
    } else if d == 89 {
        999848
    } else {
        1000000
    }
}

/// The sine of a heading of `h` degrees, `0 <= h < 360`, in millionths.
pub open spec fn sine(h: int) -> int {
    if h <= 90 {
        quarter_sine(h)
    } else if h <= 180 {
        quarter_sine(180 - h)
    } else if h <= 270 {
        -quarter_sine(h - 180)
    } else {
        -quarter_sine(360 - h)
    }
}

/// The cosine of a heading of `h` degrees, `0 <= h < 360`, in millionths.
pub open spec fn cosine(h: int) -> int {
    if h < 270 {
        sine(h + 90)
    } else {
        sine(h - 270)
    }
}

/// The unit direction of a heading: `(sine, cosine)`, so that heading 0
/// points along the positive y axis and heading 90 along the positive x axis.
pub open spec fn unit_direction(h: int) -> (int, int) {
    (sine(h), cosine(h))
}

/// A heading brought into `0 <= h < 360`.
pub open spec fn normalized(degrees: int) -> int {
    degrees % 360
}

/// The quotient of `n` by `d` rounded toward zero, for `d > 0`.
pub open spec fn toward_zero(n: int, d: int) -> int {
    if n >= 0 {
        n / d
    } else {
        -((-n) / d)
    }
}

/// No component of a unit direction exceeds the scale.
pub proof fn lemma_direction_bounded(h: int)
    requires
        0 <= h < 360,
    ensures
        -SCALE <= sine(h) <= SCALE,
        -SCALE <= cosine(h) <= SCALE,
{
    lemma_quarter_bounded(h);
    lemma_quarter_bounded(180 - h);
    lemma_quarter_bounded(h - 180);
    lemma_quarter_bounded(360 - h);
    lemma_quarter_bounded(h + 90);
    lemma_quarter_bounded(90 - h);
    lemma_quarter_bounded(h - 90);
    lemma_quarter_bounded(270 - h);
    lemma_quarter_bounded(h - 270);
}

/// Rounding toward zero never moves a quotient away from zero.
pub proof fn lemma_toward_zero_bounded(n: int, d: int, limit: int)
    requires
        d >= 1,
        -limit <= n <= limit,
    ensures
        -limit <= toward_zero(n, d) <= limit,
        n >= 0 ==> 0 <= toward_zero(n, d) <= n,
        n <= 0 ==> n <= toward_zero(n, d) <= 0,
{
    let magnitude: int = if n >= 0 { n } else { -n };
    vstd::arithmetic::div_mod::lemma_div_nonincreasing(magnitude, d);
    vstd::arithmetic::div_mod::lemma_div_pos_is_pos(magnitude, d);
}

proof fn lemma_quarter_bounded(d: int)
    ensures
        0 <= quarter_sine(d) <= SCALE,
{
}

/// Computes `quarter_sine(d)`.
fn quarter_sine_of(d: u32) -> (r: i64)
    requires
        d <= 90,
    ensures
        r == quarter_sine(d as int),
{
    if d <= 0 {
        0
    } else if d == 1 {
        17452
    } else if d == 2 {
        34899
    } else if d == 3 {
        52336
    } else if d == 4 {
        69756
    } else if d == 5 {
        87156
    } else if d == 6 {
        104528
    } else if d == 7 {
        121869
    } else if d == 8 {
        139173
    } else if d == 9 {
        156434
    } else if d == 10 {
        173648
    } else if d == 11 {
        190809
    } else if d == 12 {
        207912
    } else if d == 13 {
        224951
    } else if d == 14 {
        241922
    } else if d == 15 {
        258819
    } else if d == 16 {
        275637
    } else if d == 17 {
        292372
    } else if d == 18 {
        309017
    } else if d == 19 {
        325568
    } else if d == 20 {
        342020
    } else if d == 21 {
        358368
    } else if d == 22 {
        374607
    } else if d == 23 {
        390731
    } else if d == 24 {
        406737
    } else if d == 25 {
        422618
    } else if d == 26 {
        438371
    } else if d == 27 {
        453990
    } else if d == 28 {
        469472
    } else if d == 29 {
        484810
    } else if d == 30 {
        500000
    } else if d == 31 {
        515038
    } else if d == 32 {
        529919
    } else if d == 33 {
        544639
    } else if d == 34 {
        559193
    } else if d == 35 {
        573576
    } else if d == 36 {
        587785
    } else if d == 37 {
        601815
    } else if d == 38 {
        615661
    } else if d == 39 {
        629320
    } else if d == 40 {
        642788
    } else if d == 41 {
        656059
    } else if d == 42 {
        669131
    } else if d == 43 {
        681998
    } else if d == 44 {
        694658
    } else if d == 45 {
        707107
    } else if d == 46 {
        719340
    } else if d == 47 {
        731354
    } else if d == 48 {
        743145
    } else if d == 49 {
        754710
    } else if d == 50 {
        766044
    } else if d == 51 {
        777146
    } else if d == 52 {
        788011
    } else if d == 53 {
        798636
    } else if d == 54 {
        809017
    } else if d == 55 {
        819152
    } else if d == 56 {
        829038
    } else if d == 57 {
        838671
    } else if d == 58 {
        848048
    } else if d == 59 {
        857167
    } else if d == 60 {
        866025
    } else if d == 61 {
        874620
    } else if d == 62 {
        882948
    } else if d == 63 {
        891007
    } else if d == 64 {
        898794
    } else if d == 65 {
        906308
    } else if d == 66 {
        913545
    } else if d == 67 {
        920505
    } else if d == 68 {
        927184
    } else if d == 69 {
        933580
    } else if d == 70 {
        939693
    } else if d == 71 {
        945519
    } else if d == 72 {
        951057
    } else if d == 73 {
        956305
    } else if d == 74 {
        961262
    } else if d == 75 {
        965926
    } else if d == 76 {
        970296
    } else if d == 77 {
        974370
    } else if d == 78 {
        978148
    } else if d == 79 {
        981627
    } else if d == 80 {
        984808
    } else if d == 81 {
        987688
    } else if d == 82 {
        990268
    } else if d == 83 {
        992546
    } else if d == 84 {
        994522
    } else if d == 85 {
        996195
    } else if d == 86 {
        997564
    } else if d == 87 {
        998630
    } else if d == 88 {
        999391
    } else if d == 89 {
        999848
    } else {
        1000000
    }
}

/// Computes `sine(h)`.
pub fn sine_of(h: u32) -> (r: i64)
    requires
        h < 360,
    ensures
        r == sine(h as int),
        -SCALE <= r <= SCALE,
{
    proof {
        lemma_direction_bounded(h as int);
    }
    if h <= 90 {
        quarter_sine_of(h)
    } else if h <= 180 {
        quarter_sine_of(180 - h)
    } else if h <= 270 {
        -quarter_sine_of(h - 180)
    } else {
        -quarter_sine_of(360 - h)
    }
}

/// Computes `cosine(h)`.
pub fn cosine_of(h: u32) -> (r: i64)
    requires
        h < 360,
    ensures
        r == cosine(h as int),
        -SCALE <= r <= SCALE,
{
    proof {
        lemma_direction_bounded(h as int);
    }
    if h < 270 {
        sine_of(h + 90)
    } else {
        sine_of(h - 270)
    }
}

/// Brings the sum of two angles in degrees into `0 <= h < 360`.
pub fn normalize(first: i32, second: i32) -> (h: u32)
    ensures
        h == normalized(first + second),
        h < 360,
{
    let sum: i64 = first as i64 + second as i64;
    // 12_000_000 full turns lift every sum of two angles above zero.
    let lifted: i64 = sum + 4_320_000_000;
    proof {
        vstd::arithmetic::div_mod::lemma_mod_multiples_vanish(12_000_000, sum as int, 360);
    }
    let turned: u64 = lifted as u64 % 360;
    turned as u32
}

/// Computes `toward_zero(n, d)`.
pub fn divide_toward_zero(n: i64, d: u32) -> (r: i64)
    requires
        d > 0,
        n > i64::MIN,
    ensures
        r == toward_zero(n as int, d as int),
{
    if n >= 0 {
        let q: u64 = n as u64 / d as u64;
        q as i64
    } else {
        let q: u64 = (-n) as u64 / d as u64;
        -(q as i64)
    }
}

} // verus!
