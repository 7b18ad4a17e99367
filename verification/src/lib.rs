//! Blurhash: a compact base-83 textual fingerprint of an image.
//!
//! This crate holds the verified integer and string layer of the codec: the
//! base-83 digit codec, the size flag, the packing of quantized DC and AC
//! color terms, and the assembly and parsing of the encoded string.  The
//! floating-point color pipeline that produces and consumes the quantized
//! integers lives with the caller.

pub mod ac;
pub mod base83;
pub mod dc;
pub mod error;

use vstd::prelude::*;
use vstd::string::StrSliceExecFns;
use vstd::arithmetic::div_mod::lemma_fundamental_div_mod;
use vstd::arithmetic::div_mod::lemma_fundamental_div_mod_converse;
use vstd::arithmetic::div_mod::lemma_small_mod;

use crate::base83::all_base83;
use crate::base83::base83_chars;
use crate::base83::base83_value;
use crate::base83::char_value;
use crate::base83::digit_char;
use crate::base83::is_base83_char;
use crate::base83::lemma_base83_chars_wf;
use crate::base83::lemma_base83_round_trip;
use crate::base83::lemma_base83_value_bound;
use crate::base83::lemma_digit_char_value;
use crate::base83::pow83;
use crate::error::Error;

verus! {

/// The size-flag digit that encodes the component counts `cx` and `cy`.
pub open spec fn size_flag_of(cx: int, cy: int) -> int {
    (cx - 1) + (cy - 1) * 9
}

/// The horizontal component count encoded in the size flag `flag`.
pub open spec fn flag_x(flag: int) -> int {
    flag % 9 + 1
}

/// The vertical component count encoded in the size flag `flag`.
pub open spec fn flag_y(flag: int) -> int {
    flag / 9 + 1
}

/// The length every blurhash with component counts `cx` and `cy` must have:
/// one size-flag digit, one scale digit, four DC digits, and two digits per
/// AC term.
pub open spec fn expected_len(cx: int, cy: int) -> int {
    4 + 2 * cx * cy
}

/// The digit groups of the AC terms `ac`, two base-83 digits each, in order.
pub open spec fn ac_chars(ac: Seq<u16>) -> Seq<char>
    decreases ac.len(),
{
    if ac.len() == 0 {
        Seq::empty()
    } else {
        ac_chars(ac.drop_last()) + base83_chars(ac.last() as nat, 2)
    }
}

/// The full character sequence of a blurhash built from quantized parts.
pub open spec fn blurhash_chars(cx: int, cy: int, qm: nat, dc_v: nat, ac: Seq<u16>) -> Seq<char> {
    base83_chars(size_flag_of(cx, cy) as nat, 1) + base83_chars(qm, 1) + base83_chars(dc_v, 4)
        + ac_chars(ac)
}

/// A blurhash taken apart into its quantized integer parts.
#[derive(Debug)]
pub struct Quantized {
    /// Horizontal component count, in `[1, 9]`.
    pub components_x: usize,
    /// Vertical component count.
    pub components_y: usize,
    /// The quantized maximum-AC-magnitude scale digit, below 83.
    pub quantised_maximum: u8,
    /// The packed DC color, four base-83 digits.
    pub dc_value: u32,
    /// The packed AC terms, two base-83 digits each, in order.
    pub ac_values: Vec<u16>,
}

/// Recovers the component counts from the size flag in the first character
/// and checks the string's length against them.
pub fn components(blurhash: &str) -> (r: Result<(usize, usize), Error>)
    ensures
        match r {
            Ok(pair) => {
                let flag = char_value(blurhash@[0]) as int;
                &&& blurhash@.len() >= 6
                &&& is_base83_char(blurhash@[0])
                &&& pair.0 == flag_x(flag)
                &&& pair.1 == flag_y(flag)
                &&& blurhash@.len() == expected_len(pair.0 as int, pair.1 as int)
            },
            Err(Error::TooShort) => blurhash@.len() < 6,
            Err(Error::UnknownCharacter) => blurhash@.len() >= 6 && !is_base83_char(
                blurhash@[0],
            ),
            Err(Error::LengthMismatch { actual, expected }) => {
                let flag = char_value(blurhash@[0]) as int;
                &&& blurhash@.len() >= 6
                &&& is_base83_char(blurhash@[0])
                &&& actual == blurhash@.len()
                &&& expected == expected_len(flag_x(flag), flag_y(flag))
                &&& actual != expected
            },
            _ => false,
        },
{
    let len = blurhash.unicode_len();
    if len < 6 {
        return Err(Error::TooShort);
    }
    let first = blurhash.substring_char(0, 1);
    proof {
        assert(first@ =~= seq![blurhash@[0]]);
        assert(first@.drop_last() =~= Seq::<char>::empty());
        assert(base83_value(first@.drop_last()) == 0);
        assert(first@.last() == blurhash@[0]);
        assert(base83_value(first@) == char_value(blurhash@[0]));
        assert(all_base83(first@) ==> is_base83_char(first@[0]));
        assert(is_base83_char(blurhash@[0]) ==> all_base83(first@));
    }
    let flag = match base83::decode(first) {
        Ok(v) => v,
        Err(_) => {
            proof {
                assert(char_value(blurhash@[0]) <= 83);
                assert(base83_value(first@) <= usize::MAX);
            }
            return Err(Error::UnknownCharacter);
        },
    };
    proof {
        assert(is_base83_char(blurhash@[0]));
        assert(flag == char_value(blurhash@[0]) < 83);
    }
    let num_x = flag % 9 + 1;
    let num_y = flag / 9 + 1;
    proof {
        assert(num_x <= 9 && num_y <= 10);
        assert(2 * num_x * num_y <= 180 && num_x * num_y <= 90) by (nonlinear_arith)
            requires
                num_x <= 9,
                num_y <= 10,
        ;
    }
    let expected = 4 + 2 * num_x * num_y;
    if len != expected {
        return Err(Error::LengthMismatch { actual: len, expected });
    }
    Ok((num_x, num_y))
}

/// The frequency-index pairs in the order their basis colors enter the
/// string: row-major, with the horizontal frequency varying fastest.  The
/// pair at position `k` is `(k % components_x, k / components_x)`, so the
/// DC pair `(0, 0)` comes first.
pub fn basis_order(components_x: u32, components_y: u32) -> (r: Vec<(u32, u32)>)
    requires
        1 <= components_x <= 9,
        1 <= components_y <= 9,
    ensures
        r@.len() == components_x * components_y,
        forall|k: int|
            0 <= k < r@.len() ==> #[trigger] r@[k] == (
                ((k % (components_x as int)) as u32),
                ((k / (components_x as int)) as u32),
            ),
{
    let mut r: Vec<(u32, u32)> = Vec::new();
    let mut y: u32 = 0;
    while y < components_y
        invariant
            1 <= components_x <= 9,
            1 <= components_y <= 9,
            y <= components_y,
            r@.len() == y * components_x,
            forall|k: int|
                0 <= k < r@.len() ==> #[trigger] r@[k] == (
                    ((k % (components_x as int)) as u32),
                    ((k / (components_x as int)) as u32),
                ),
        decreases components_y - y,
    {
        let mut x: u32 = 0;
        while x < components_x
            invariant
                1 <= components_x <= 9,
                1 <= components_y <= 9,
                y < components_y,
                x <= components_x,
                r@.len() == y * components_x + x,
                forall|k: int|
                    0 <= k < r@.len() ==> #[trigger] r@[k] == (
                        ((k % (components_x as int)) as u32),
                        ((k / (components_x as int)) as u32),
                    ),
            decreases components_x - x,
        {
            proof {
                lemma_fundamental_div_mod_converse(
                    y * components_x + x,
                    components_x as int,
                    y as int,
                    x as int,
                );
            }
            r.push((x, y));
            x += 1;
        }
        proof {
            assert((y + 1) * components_x == y * components_x + components_x) by (nonlinear_arith);
        }
        y += 1;
    }
    proof {
        assert(components_y * components_x == components_x * components_y) by (nonlinear_arith);
    }
    r
}

/// Assembles the blurhash string from already-quantized parts: the component
/// counts, the quantized scale digit, the packed DC color, and the packed AC
/// terms in row-major order.  Fails exactly when a component count lies
/// outside `[1, 9]`.  Values too wide for their digit group are truncated to
/// its low digits.
pub fn encode_quantized(
    components_x: u32,
    components_y: u32,
    quantised_maximum: u32,
    dc_value: u32,
    ac_values: &Vec<u16>,
) -> (r: Result<String, Error>)
    requires
        1 <= components_x <= 9 && 1 <= components_y <= 9 ==> ac_values@.len() == components_x
            * components_y - 1,
    ensures
        r is Ok <==> (1 <= components_x <= 9 && 1 <= components_y <= 9),
        r is Ok ==> r->Ok_0@ == blurhash_chars(
            components_x as int,
            components_y as int,
            quantised_maximum as nat,
            dc_value as nat,
            ac_values@,
        ),
        r is Err ==> r->Err_0 == Error::InvalidComponentCount,
{
    if components_x < 1 || components_x > 9 || components_y < 1 || components_y > 9 {
        return Err(Error::InvalidComponentCount);
    }
    let flag = (components_x - 1) + (components_y - 1) * 9;
    let ghost header = base83_chars(
        size_flag_of(components_x as int, components_y as int) as nat,
        1,
    ) + base83_chars(quantised_maximum as nat, 1) + base83_chars(dc_value as nat, 4);
    let mut result = String::new();
    base83::encode_no_alloc(flag, 1, &mut result);
    base83::encode_no_alloc(quantised_maximum, 1, &mut result);
    base83::encode_no_alloc(dc_value, 4, &mut result);
    proof {
        assert(result@ =~= header);
        assert(ac_values@.take(0) =~= Seq::<u16>::empty());
        assert(result@ =~= header + ac_chars(ac_values@.take(0)));
    }
    let mut i: usize = 0;
    while i < ac_values.len()
        invariant
            i <= ac_values@.len(),
            result@ == header + ac_chars(ac_values@.take(i as int)),
        decreases ac_values@.len() - i,
    {
        base83::encode_no_alloc(ac_values[i] as u32, 2, &mut result);
        proof {
            let taken = ac_values@.take(i + 1);
            assert(taken.drop_last() =~= ac_values@.take(i as int));
            assert(taken.last() == ac_values@[i as int]);
            assert(result@ =~= header + ac_chars(taken));
        }
        i += 1;
    }
    proof {
        assert(ac_values@.take(ac_values@.len() as int) =~= ac_values@);
    }
    Ok(result)
}

/// Every position of a blurhash-shaped string is covered by the size flag,
/// the scale digit, the DC group, or one of the AC groups.
proof fn lemma_positions_covered(s: Seq<char>, nx: int, ny: int)
    requires
        nx >= 1,
        ny >= 1,
        s.len() == expected_len(nx, ny),
        is_base83_char(s[0]),
        all_base83(s.subrange(1, 2)),
        all_base83(s.subrange(2, 6)),
        forall|j: int|
            0 <= j < nx * ny - 1 ==> all_base83(#[trigger] s.subrange(6 + 2 * j, 8 + 2 * j)),
    ensures
        all_base83(s),
{
    assert(nx * ny >= 1 && 2 * nx * ny == 2 * (nx * ny)) by (nonlinear_arith)
        requires
            nx >= 1,
            ny >= 1,
    ;
    assert(s.len() >= 6);
    assert forall|p: int| 0 <= p < s.len() implies is_base83_char(#[trigger] s[p]) by {
        if p == 1 {
            assert(s.subrange(1, 2)[0] == s[1]);
        } else if 2 <= p < 6 {
            assert(s.subrange(2, 6)[p - 2] == s[p]);
        } else if p >= 6 {
            let j = (p - 6) / 2;
            lemma_fundamental_div_mod(p - 6, 2);
            assert(0 <= j < nx * ny - 1);
            assert(s.subrange(6 + 2 * j, 8 + 2 * j)[p - (6 + 2 * j)] == s[p]);
        }
    }
}

/// Takes a blurhash string apart into its quantized integer parts, checking
/// the header, the length, and the alphabet.
pub fn decode_quantized(blurhash: &str) -> (r: Result<Quantized, Error>)
    ensures
        match r {
            Ok(q) => {
                let flag = char_value(blurhash@[0]) as int;
                &&& blurhash@.len() >= 6
                &&& all_base83(blurhash@)
                &&& q.components_x == flag_x(flag)
                &&& q.components_y == flag_y(flag)
                &&& blurhash@.len() == expected_len(
                    q.components_x as int,
                    q.components_y as int,
                )
                &&& q.quantised_maximum as nat == char_value(blurhash@[1])
                &&& q.dc_value as nat == base83_value(blurhash@.subrange(2, 6))
                &&& q.ac_values@.len() == q.components_x * q.components_y - 1
                &&& forall|j: int|
                    0 <= j < q.ac_values@.len() ==> q.ac_values@[j] as nat == base83_value(
                        #[trigger] blurhash@.subrange(6 + 2 * j, 8 + 2 * j),
                    )
            },
            Err(Error::TooShort) => blurhash@.len() < 6,
            Err(Error::UnknownCharacter) => blurhash@.len() >= 6 && (!is_base83_char(
                blurhash@[0],
            ) || (blurhash@.len() == expected_len(
                flag_x(char_value(blurhash@[0]) as int),
                flag_y(char_value(blurhash@[0]) as int),
            ) && !all_base83(blurhash@))),
            Err(Error::LengthMismatch { actual, expected }) => {
                let flag = char_value(blurhash@[0]) as int;
                &&& blurhash@.len() >= 6
                &&& is_base83_char(blurhash@[0])
                &&& actual == blurhash@.len()
                &&& expected == expected_len(flag_x(flag), flag_y(flag))
                &&& actual != expected
            },
            _ => false,
        },
{
    let (num_x, num_y) = match components(blurhash) {
        Ok(pair) => pair,
        Err(e) => {
            return Err(e);
        },
    };
    proof {
        assert(pow83(0) == 1);
        assert(pow83(1) == 83);
        assert(pow83(2) == 6889);
        assert(pow83(3) == 571787);
        assert(pow83(4) == 47458321);
    }
    let scale_str = blurhash.substring_char(1, 2);
    let quantised_maximum = match base83::decode(scale_str) {
        Ok(v) => v,
        Err(_) => {
            proof {
                lemma_base83_value_bound_small(scale_str@, blurhash@, 1);
            }
            return Err(Error::UnknownCharacter);
        },
    };
    proof {
        assert(scale_str@ =~= seq![blurhash@[1]]);
        assert(scale_str@.drop_last() =~= Seq::<char>::empty());
        assert(base83_value(scale_str@.drop_last()) == 0);
        assert(scale_str@.last() == blurhash@[1]);
        assert(base83_value(scale_str@) == char_value(blurhash@[1]));
        assert(char_value(blurhash@[1]) < 83);
    }
    let dc_str = blurhash.substring_char(2, 6);
    let dc_value = match base83::decode(dc_str) {
        Ok(v) => v,
        Err(_) => {
            proof {
                lemma_base83_value_bound_small(dc_str@, blurhash@, 2);
            }
            return Err(Error::UnknownCharacter);
        },
    };
    proof {
        lemma_base83_value_bound(dc_str@);
    }
    proof {
        assert(1 <= num_x <= 9 && 1 <= num_y <= 10);
        assert(1 <= num_x * num_y <= 90) by (nonlinear_arith)
            requires
                1 <= num_x <= 9,
                1 <= num_y <= 10,
        ;
    }
    let count = num_x * num_y - 1;
    proof {
        assert(2 * (num_x as int) * (num_y as int) == 2 * ((num_x as int) * (num_y as int)))
            by (nonlinear_arith);
        assert(blurhash@.len() == 6 + 2 * (count as int));
    }
    let mut ac_values: Vec<u16> = Vec::new();
    let mut j: usize = 0;
    while j < count
        invariant
            j <= count,
            count <= 89,
            blurhash@.len() == 6 + 2 * (count as int),
            is_base83_char(blurhash@[0]),
            blurhash@.len() == expected_len(
                flag_x(char_value(blurhash@[0]) as int),
                flag_y(char_value(blurhash@[0]) as int),
            ),
            ac_values@.len() == j,
            forall|k: int|
                0 <= k < j ==> ac_values@[k] as nat == base83_value(
                    #[trigger] blurhash@.subrange(6 + 2 * k, 8 + 2 * k),
                ),
            forall|k: int|
                0 <= k < j ==> all_base83(#[trigger] blurhash@.subrange(6 + 2 * k, 8 + 2 * k)),
        decreases count - j,
    {
        proof {
            assert(8 + 2 * j <= blurhash@.len());
        }
        let group = blurhash.substring_char(6 + 2 * j, 8 + 2 * j);
        let v = match base83::decode(group) {
            Ok(v) => v,
            Err(_) => {
                proof {
                    lemma_base83_value_bound_small(group@, blurhash@, 6 + 2 * j);
                }
                return Err(Error::UnknownCharacter);
            },
        };
        proof {
            lemma_base83_value_bound(group@);
            assert(pow83(0) == 1);
            assert(pow83(1) == 83);
            assert(pow83(2) == 6889);
        }
        ac_values.push(v as u16);
        j += 1;
    }
    proof {
        lemma_positions_covered(blurhash@, num_x as int, num_y as int);
    }
    Ok(
        Quantized {
            components_x: num_x,
            components_y: num_y,
            quantised_maximum: quantised_maximum as u8,
            dc_value: dc_value as u32,
            ac_values,
        },
    )
}

/// Decoding the size flag built from component counts in `[1, 9]` gives the
/// counts back.
pub proof fn lemma_size_flag_round_trip(cx: int, cy: int)
    requires
        1 <= cx <= 9,
        1 <= cy <= 9,
    ensures
        0 <= size_flag_of(cx, cy) <= 80,
        flag_x(size_flag_of(cx, cy)) == cx,
        flag_y(size_flag_of(cx, cy)) == cy,
{
    let f = size_flag_of(cx, cy);
    lemma_fundamental_div_mod_converse(f, 9, cy - 1, cx - 1);
}

/// The AC digit groups are two characters per term and stay in the alphabet.
pub proof fn lemma_ac_chars_wf(ac: Seq<u16>)
    ensures
        ac_chars(ac).len() == 2 * ac.len(),
        all_base83(ac_chars(ac)),
    decreases ac.len(),
{
    if ac.len() > 0 {
        lemma_ac_chars_wf(ac.drop_last());
        lemma_base83_chars_wf(ac.last() as nat, 2);
        assert forall|i: int| 0 <= i < ac_chars(ac).len() implies is_base83_char(
            #[trigger] ac_chars(ac)[i],
        ) by {
            if i < 2 * (ac.len() - 1) {
                assert(ac_chars(ac)[i] == ac_chars(ac.drop_last())[i]);
            } else {
                assert(ac_chars(ac)[i] == base83_chars(ac.last() as nat, 2)[i - 2 * (ac.len()
                    - 1)]);
            }
        }
    }
}

/// Group `j` of the AC digit groups is the two-digit encoding of term `j`.
pub proof fn lemma_ac_chars_group(ac: Seq<u16>, j: int)
    requires
        0 <= j < ac.len(),
    ensures
        ac_chars(ac).subrange(2 * j, 2 * j + 2) == base83_chars(ac[j] as nat, 2),
    decreases ac.len(),
{
    lemma_ac_chars_wf(ac.drop_last());
    lemma_base83_chars_wf(ac.last() as nat, 2);
    if j == ac.len() - 1 {
        assert(ac_chars(ac).subrange(2 * j, 2 * j + 2) =~= base83_chars(ac.last() as nat, 2));
    } else {
        lemma_ac_chars_group(ac.drop_last(), j);
        assert(ac_chars(ac).subrange(2 * j, 2 * j + 2) =~= ac_chars(ac.drop_last()).subrange(
            2 * j,
            2 * j + 2,
        ));
    }
}

/// A blurhash assembled from quantized parts parses back to exactly those
/// parts: the string has the expected length, stays inside the alphabet, its
/// size flag yields the component counts it was built from, and the scale
/// digit, the DC group, and every AC group decode to the values they encode.
pub proof fn lemma_blurhash_round_trip(cx: int, cy: int, qm: u32, dc_v: u32, ac: Seq<u16>)
    requires
        1 <= cx <= 9,
        1 <= cy <= 9,
        qm <= 82,
        dc_v < 47458321,
        ac.len() == cx * cy - 1,
        forall|j: int| 0 <= j < ac.len() ==> ac[j] < 6889,
    ensures
        ({
            let s = blurhash_chars(cx, cy, qm as nat, dc_v as nat, ac);
            &&& s.len() == expected_len(cx, cy)
            &&& s.len() >= 6
            &&& all_base83(s)
            &&& char_value(s[0]) == size_flag_of(cx, cy)
            &&& flag_x(char_value(s[0]) as int) == cx
            &&& flag_y(char_value(s[0]) as int) == cy
            &&& char_value(s[1]) == qm
            &&& base83_value(s.subrange(2, 6)) == dc_v
            &&& forall|j: int|
                0 <= j < ac.len() ==> base83_value(
                    #[trigger] s.subrange(6 + 2 * j, 8 + 2 * j),
                ) == ac[j]
        }),
{
    assert(pow83(0) == 1);
    assert(pow83(1) == 83);
    assert(pow83(2) == 6889);
    assert(pow83(3) == 571787);
    assert(pow83(4) == 47458321);
    let s = blurhash_chars(cx, cy, qm as nat, dc_v as nat, ac);
    let f = size_flag_of(cx, cy);
    lemma_size_flag_round_trip(cx, cy);
    let a = base83_chars(f as nat, 1);
    let b = base83_chars(qm as nat, 1);
    let c = base83_chars(dc_v as nat, 4);
    let d = ac_chars(ac);
    lemma_base83_chars_wf(f as nat, 1);
    lemma_base83_chars_wf(qm as nat, 1);
    lemma_base83_chars_wf(dc_v as nat, 4);
    lemma_ac_chars_wf(ac);
    assert(2 * cx * cy == 2 * (cx * cy)) by (nonlinear_arith);
    assert(s.len() == expected_len(cx, cy));
    assert(base83_chars((f as nat) / 83, 0) =~= Seq::<char>::empty());
    lemma_small_mod(f as nat, 83);
    lemma_digit_char_value(f as nat);
    assert(s[0] == a[0]);
    assert(a[0] == digit_char(f as nat));
    assert(char_value(s[0]) == f);
    assert(base83_chars((qm as nat) / 83, 0) =~= Seq::<char>::empty());
    lemma_small_mod(qm as nat, 83);
    lemma_digit_char_value(qm as nat);
    assert(s[1] == b[0]);
    assert(b[0] == digit_char(qm as nat));
    assert(char_value(s[1]) == qm);
    assert(s.subrange(2, 6) =~= c);
    lemma_base83_round_trip(dc_v as nat, 4);
    assert forall|j: int| 0 <= j < ac.len() implies base83_value(
        #[trigger] s.subrange(6 + 2 * j, 8 + 2 * j),
    ) == ac[j] by {
        lemma_ac_chars_group(ac, j);
        assert(s.subrange(6 + 2 * j, 8 + 2 * j) =~= d.subrange(2 * j, 2 * j + 2));
        lemma_base83_round_trip(ac[j] as nat, 2);
    }
    assert forall|p: int| 0 <= p < s.len() implies is_base83_char(#[trigger] s[p]) by {
        if p < 1 {
            assert(s[p] == a[0]);
        } else if p < 2 {
            assert(s[p] == b[0]);
        } else if p < 6 {
            assert(s[p] == c[p - 2]);
        } else {
            assert(s[p] == d[p - 6]);
        }
    }
}

/// A digit group cut from a blurhash is short, so its value fits in `usize`
/// and decoding it can only fail on a character outside the alphabet; such a
/// character also breaks the whole string.
proof fn lemma_base83_value_bound_small(sub: Seq<char>, whole: Seq<char>, off: int)
    requires
        sub.len() <= 4,
        0 <= off,
        off + sub.len() <= whole.len(),
        sub == whole.subrange(off, off + sub.len()),
    ensures
        all_base83(sub) ==> base83_value(sub) <= usize::MAX,
        !all_base83(sub) ==> !all_base83(whole),
{
    assert(pow83(0) == 1);
    assert(pow83(1) == 83);
    assert(pow83(2) == 6889);
    assert(pow83(3) == 571787);
    assert(pow83(4) == 47458321);
    assert(usize::MAX >= 4294967295);
    if all_base83(sub) {
        lemma_base83_value_bound(sub);
        assert(pow83(sub.len()) <= pow83(4)) by {
            if sub.len() == 0 {
            } else if sub.len() == 1 {
            } else if sub.len() == 2 {
            } else if sub.len() == 3 {
            }
        }
    } else {
        let i = choose|i: int| 0 <= i < sub.len() && !is_base83_char(sub[i]);
        assert(!is_base83_char(sub[i]));
        assert(sub[i] == whole[off + i]);
    }
}

} // verus!
