//! Parsing a bounding-box string.
//!
//! A bounding box arrives as one comma-separated string of four decimal
//! numbers: lower-left latitude, lower-left longitude, upper-right
//! latitude, upper-right longitude, all in degrees. Parsing rejects,
//! before any zone work starts: a wrong number of comma-separated
//! tokens, a token that is not a plain signed decimal number (or whose
//! magnitude does not fit the coordinate range), and a first latitude
//! not strictly between the poles.
//!
//! Numbers are plain decimals: an optional sign, digits, and at most one
//! decimal point, with at least one digit; no exponent notation.
//! Fractional digits beyond the nanodegree resolution are ignored.

use vstd::prelude::*;

verus! {

use crate::geo::GeoExtent;
use crate::geo::GeoPoint;
use crate::geo::LAT_MAX;
use crate::geo::LAT_MIN;
use crate::geo::NANO_PER_DEGREE;

/// ASCII '+'.
pub const BYTE_PLUS: u8 = 43;

/// ASCII ','.
pub const BYTE_COMMA: u8 = 44;

/// ASCII '-'.
pub const BYTE_MINUS: u8 = 45;

/// ASCII '.'.
pub const BYTE_DOT: u8 = 46;

/// ASCII '0'.
pub const BYTE_ZERO: u8 = 48;

/// ASCII '9'.
pub const BYTE_NINE: u8 = 57;

/// Why a bounding-box string was rejected.
#[derive(Clone, Copy, PartialEq, Eq, Structural, Debug)]
pub enum BboxError {
    /// The string does not hold exactly four comma-separated tokens.
    WrongTokenCount,
    /// Some token is not a decimal number the coordinate range can hold.
    NotANumber,
    /// The first latitude does not lie strictly between the poles.
    LatitudeOutOfRange,
}

/// Whether `c` is an ASCII decimal digit.
pub open spec fn is_digit(c: u8) -> bool {
    BYTE_ZERO <= c <= BYTE_NINE
}

/// `s` without a single leading sign character, if it has one.
pub open spec fn strip_sign(s: Seq<u8>) -> Seq<u8> {
    if s.len() > 0 && (s[0] == BYTE_PLUS || s[0] == BYTE_MINUS) {
        s.drop_first()
    } else {
        s
    }
}

/// Whether `s` is negative: a single leading minus sign.
pub open spec fn spec_is_negative(s: Seq<u8>) -> bool {
    s.len() > 0 && s[0] == BYTE_MINUS
}

/// Whether `t` is an unsigned decimal number: non-empty, every
/// character a digit or a decimal point, at most one point, and at
/// least one digit.
pub open spec fn spec_is_unsigned_number(t: Seq<u8>) -> bool {
    &&& t.len() > 0
    &&& (forall|i: int| 0 <= i < t.len() ==> is_digit(#[trigger] t[i]) || t[i] == BYTE_DOT)
    &&& (forall|i: int, j: int| 0 <= i < j < t.len() ==> !(t[i] == BYTE_DOT && t[j] == BYTE_DOT))
    &&& (exists|i: int| 0 <= i < t.len() && is_digit(#[trigger] t[i]))
}

/// Whether `s` is a decimal number: an optional sign followed by an
/// unsigned decimal number.
pub open spec fn spec_is_number(s: Seq<u8>) -> bool {
    spec_is_unsigned_number(strip_sign(s))
}

/// The index of the first decimal point of `t`, or `t.len()` if there
/// is none.
pub open spec fn dot_index(t: Seq<u8>) -> int
    decreases t.len(),
{
    if t.len() == 0 {
        0
    } else if t[0] == BYTE_DOT {
        0
    } else {
        1 + dot_index(t.drop_first())
    }
}

/// The value of a digit string read as a decimal integer.
pub open spec fn digits_value(s: Seq<u8>) -> int
    decreases s.len(),
{
    if s.len() == 0 {
        0
    } else {
        digits_value(s.take(s.len() - 1)) * 10 + (s.last() - BYTE_ZERO)
    }
}

/// Ten to the power `n`.
pub open spec fn pow10(n: nat) -> int
    decreases n,
{
    if n == 0 {
        1
    } else {
        10 * pow10((n - 1) as nat)
    }
}

/// The value of the decimal number `s` in nanodegrees: the integer part
/// scaled by one billion, plus the first nine fractional digits scaled
/// to nanodegrees, negated under a minus sign. Fractional digits beyond
/// the ninth are ignored.
pub open spec fn spec_number_value(s: Seq<u8>) -> int {
    let t = strip_sign(s);
    let d = dot_index(t);
    let ipart = t.take(d);
    let frac = if d < t.len() {
        t.skip(d + 1)
    } else {
        Seq::empty()
    };
    let f9 = frac.take(if frac.len() < 9 {
        frac.len() as int
    } else {
        9
    });
    let magnitude = digits_value(ipart) * (NANO_PER_DEGREE as int) + digits_value(f9) * pow10(
        (9 - f9.len()) as nat,
    );
    if spec_is_negative(s) {
        -magnitude
    } else {
        magnitude
    }
}

/// Whether the number's value fits the coordinate range: strictly less
/// than one billion degrees in magnitude.
pub open spec fn spec_number_in_range(s: Seq<u8>) -> bool {
    -1_000_000_000_000_000_000 < spec_number_value(s) < 1_000_000_000_000_000_000
}

/// Whether `s` parses as one bounding-box coordinate.
pub open spec fn spec_token_ok(s: Seq<u8>) -> bool {
    spec_is_number(s) && spec_number_in_range(s)
}

/// `s` split at commas, empty tokens kept: `cur` is the token read so
/// far when the scan stands at `rest`.
pub open spec fn spec_split_acc(cur: Seq<u8>, rest: Seq<u8>) -> Seq<Seq<u8>>
    decreases rest.len(),
{
    if rest.len() == 0 {
        seq![cur]
    } else if rest[0] == BYTE_COMMA {
        seq![cur] + spec_split_acc(Seq::empty(), rest.drop_first())
    } else {
        spec_split_acc(cur.push(rest[0]), rest.drop_first())
    }
}

/// `s` split at commas into tokens, empty tokens kept: "," holds two
/// empty tokens, and a string without commas is one token.
pub open spec fn spec_split(s: Seq<u8>) -> Seq<Seq<u8>> {
    spec_split_acc(Seq::empty(), s)
}

/// The extent described by four parsed coordinates, in nanodegrees.
pub open spec fn spec_bbox_extent(toks: Seq<Seq<u8>>) -> GeoExtent {
    GeoExtent {
        ll: GeoPoint {
            lat: spec_number_value(toks[0]) as i64,
            lon: spec_number_value(toks[1]) as i64,
        },
        ur: GeoPoint {
            lat: spec_number_value(toks[2]) as i64,
            lon: spec_number_value(toks[3]) as i64,
        },
    }
}

/// Whether the bounding-box string `s` is accepted: four tokens, each
/// a coordinate number, the first latitude strictly between the poles.
pub open spec fn spec_bbox_ok(s: Seq<u8>) -> bool {
    let toks = spec_split(s);
    &&& toks.len() == 4
    &&& (forall|k: int| 0 <= k < 4 ==> spec_token_ok(#[trigger] toks[k]))
    &&& (LAT_MIN as int) < spec_number_value(toks[0]) < (LAT_MAX as int)
}

/// Why the bounding-box string `s` is rejected, when it is: the token
/// count is checked first, then the tokens' shape, then the latitude.
pub open spec fn spec_bbox_error(s: Seq<u8>) -> BboxError {
    let toks = spec_split(s);
    if toks.len() != 4 {
        BboxError::WrongTokenCount
    } else if !(forall|k: int| 0 <= k < 4 ==> spec_token_ok(#[trigger] toks[k])) {
        BboxError::NotANumber
    } else {
        BboxError::LatitudeOutOfRange
    }
}

/// The first decimal point is where `dot_index` says, and nothing
/// before it is a point.
proof fn lemma_dot_index(t: Seq<u8>)
    ensures
        0 <= dot_index(t) <= t.len(),
        dot_index(t) < t.len() ==> t[dot_index(t)] == BYTE_DOT,
        forall|i: int| 0 <= i < dot_index(t) ==> t[i] != BYTE_DOT,
    decreases t.len(),
{
    if t.len() == 0 {
    } else if t[0] == BYTE_DOT {
    } else {
        lemma_dot_index(t.drop_first());
        assert forall|i: int| 0 <= i < dot_index(t) implies t[i] != BYTE_DOT by {
            if i > 0 {
                assert(t.drop_first()[i - 1] == t[i]);
            }
        }
        if dot_index(t) < t.len() {
            assert(t.drop_first()[dot_index(t) - 1] == t[dot_index(t)]);
        }
    }
}

/// Ten to a power is positive.
proof fn lemma_pow10_pos(n: nat)
    ensures
        pow10(n) >= 1,
    decreases n,
{
    if n > 0 {
        lemma_pow10_pos((n - 1) as nat);
    }
}

/// Powers of ten multiply by adding exponents.
proof fn lemma_pow10_add(a: nat, b: nat)
    ensures
        pow10(a) * pow10(b) == pow10(a + b),
    decreases a,
{
    if a == 0 {
        assert(pow10(0) * pow10(b) == pow10(b));
    } else {
        lemma_pow10_add((a - 1) as nat, b);
        assert(pow10(a) * pow10(b) == (10 * pow10((a - 1) as nat)) * pow10(b));
        assert((10 * pow10((a - 1) as nat)) * pow10(b) == 10 * (pow10((a - 1) as nat) * pow10(
            b,
        ))) by {
            vstd::arithmetic::mul::lemma_mul_is_associative(
                10,
                pow10((a - 1) as nat),
                pow10(b),
            );
        }
    }
}

/// Ten to a power grows with the exponent.
proof fn lemma_pow10_mono(a: nat, b: nat)
    requires
        a <= b,
    ensures
        pow10(a) <= pow10(b),
    decreases b,
{
    if a < b {
        lemma_pow10_mono(a, (b - 1) as nat);
        lemma_pow10_pos((b - 1) as nat);
    }
}

/// A digit string's value is non-negative and below ten to its length.
proof fn lemma_digits_value_bound(s: Seq<u8>)
    requires
        forall|i: int| 0 <= i < s.len() ==> is_digit(#[trigger] s[i]),
    ensures
        0 <= digits_value(s) < pow10(s.len()),
    decreases s.len(),
{
    if s.len() == 0 {
    } else {
        let head = s.take(s.len() - 1);
        assert(forall|i: int| 0 <= i < head.len() ==> is_digit(#[trigger] head[i]));
        lemma_digits_value_bound(head);
        assert(digits_value(s) == digits_value(head) * 10 + (s.last() - BYTE_ZERO));
        assert(digits_value(head) * 10 <= (pow10((s.len() - 1) as nat) - 1) * 10) by {
            vstd::arithmetic::mul::lemma_mul_inequality(
                digits_value(head),
                pow10((s.len() - 1) as nat) - 1,
                10,
            );
        }
        assert(pow10(s.len()) == 10 * pow10((s.len() - 1) as nat));
    }
}


/// The token views of a split result.
pub open spec fn views(ts: Seq<Vec<u8>>) -> Seq<Seq<u8>> {
    ts.map_values(|t: Vec<u8>| t@)
}

/// Split `s` at commas, keeping empty tokens.
pub fn split_commas(s: &[u8]) -> (r: Vec<Vec<u8>>)
    ensures
        views(r@) == spec_split(s@),
{
    let mut out: Vec<Vec<u8>> = Vec::new();
    let mut cur: Vec<u8> = Vec::new();
    let n = s.len();
    proof {
        assert(s@.skip(0) =~= s@);
        assert(views(out@) + spec_split_acc(cur@, s@) =~= spec_split_acc(Seq::empty(), s@));
    }
    let mut i: usize = 0;
    while i < n
        invariant
            i <= n,
            n == s@.len(),
            views(out@) + spec_split_acc(cur@, s@.skip(i as int)) == spec_split(s@),
        decreases n - i,
    {
        proof {
            assert(s@.skip(i as int).drop_first() =~= s@.skip(i + 1));
            assert(s@.skip(i as int)[0] == s@[i as int]);
        }
        let ghost out_before = out@;
        let ghost cur_before = cur@;
        if s[i] == BYTE_COMMA {
            out.push(cur);
            cur = Vec::new();
            proof {
                assert(views(out@) =~= views(out_before).push(cur_before));
                assert(views(out@) + spec_split_acc(cur@, s@.skip(i + 1)) =~= views(out_before)
                    + (seq![cur_before] + spec_split_acc(Seq::empty(), s@.skip(i + 1))));
            }
        } else {
            cur.push(s[i]);
        }
        i = i + 1;
    }
    proof {
        assert(s@.skip(n as int) =~= Seq::<u8>::empty());
    }
    let ghost out_before = out@;
    let ghost cur_before = cur@;
    out.push(cur);
    proof {
        assert(views(out@) =~= views(out_before).push(cur_before));
        assert(spec_split_acc(cur_before, Seq::empty()) == seq![cur_before]);
        assert(views(out_before).push(cur_before) =~= views(out_before) + seq![cur_before]);
    }
    out
}

/// Compute ten to the power `e`.
fn pow10_exec(e: u32) -> (r: i64)
    requires
        e <= 9,
    ensures
        r as int == pow10(e as nat),
        1 <= r <= 1_000_000_000,
{
    let mut r: i64 = 1;
    let mut k: u32 = 0;
    while k < e
        invariant
            k <= e <= 9,
            r as int == pow10(k as nat),
            1 <= r <= 1_000_000_000,
        decreases e - k,
    {
        proof {
            lemma_pow10_pos(k as nat);
            assert(pow10((k + 1) as nat) == 10 * pow10(k as nat));
            lemma_pow10_add(k as nat, (9 - k) as nat);
            lemma_pow10_pos((9 - k) as nat);
            assert(pow10(k as nat) * 1 <= pow10(k as nat) * pow10((9 - k) as nat)) by {
                vstd::arithmetic::mul::lemma_mul_inequality(
                    1,
                    pow10((9 - k) as nat),
                    pow10(k as nat),
                );
                vstd::arithmetic::mul::lemma_mul_is_commutative(pow10(k as nat), 1);
                vstd::arithmetic::mul::lemma_mul_is_commutative(
                    pow10(k as nat),
                    pow10((9 - k) as nat),
                );
            }
            assert(pow10(k as nat) <= pow10(9));
            reveal_with_fuel(pow10, 10);
            assert(pow10(9) == 1_000_000_000);
        }
        r = r * 10;
        k = k + 1;
    }
    r
}

/// Parse one coordinate token: a plain signed decimal number, yielding
/// nanodegrees, or nothing if the token is not such a number or does
/// not fit the coordinate range.
pub fn parse_number(t: &[u8]) -> (r: Option<i64>)
    ensures
        match r {
            Some(v) => spec_token_ok(t@) && v as int == spec_number_value(t@),
            None => !spec_token_ok(t@),
        },
{
    let n = t.len();
    if n == 0 {
        return None;
    }
    let has_sign: bool = t[0] == BYTE_PLUS || t[0] == BYTE_MINUS;
    let neg: bool = t[0] == BYTE_MINUS;
    let start: usize = if has_sign {
        1
    } else {
        0
    };
    let ghost u = t@.skip(start as int);
    proof {
        if has_sign {
            assert(u =~= strip_sign(t@));
        } else {
            assert(u =~= strip_sign(t@));
        }
    }
    if start == n {
        return None;
    }
    // scan for shape: digits, at most one decimal point
    let mut dot_abs: usize = n;
    let mut digit_seen: bool = false;
    let mut i: usize = start;
    while i < n
        invariant
            start <= i <= n,
            n == t@.len(),
            start < n,
            u == t@.skip(start as int),
            u == strip_sign(t@),
            dot_abs == n || (start <= dot_abs < i && t@[dot_abs as int] == BYTE_DOT),
            forall|j: int| start <= j < i && j != dot_abs ==> is_digit(#[trigger] t@[j]),
            digit_seen == exists|j: int| start <= j < i && is_digit(#[trigger] t@[j]),
        decreases n - i,
    {
        let c = t[i];
        if c >= BYTE_ZERO && c <= BYTE_NINE {
            digit_seen = true;
            proof {
                assert(is_digit(t@[i as int]));
            }
        } else if c == BYTE_DOT {
            if dot_abs < n {
                proof {
                    assert(u[dot_abs - start] == t@[dot_abs as int]);
                    assert(u[i - start] == t@[i as int]);
                    assert(!spec_is_unsigned_number(u));
                }
                return None;
            }
            dot_abs = i;
        } else {
            proof {
                assert(u[i - start] == t@[i as int]);
                assert(!(is_digit(u[i - start]) || u[i - start] == BYTE_DOT));
                assert(!spec_is_unsigned_number(u));
            }
            return None;
        }
        i = i + 1;
    }
    if !digit_seen {
        proof {
            if spec_is_unsigned_number(u) {
                let j = choose|j: int| 0 <= j < u.len() && is_digit(#[trigger] u[j]);
                assert(u[j] == t@[j + start]);
            }
        }
        return None;
    }
    proof {
        // the scan showed a well-shaped number
        assert forall|k: int| 0 <= k < u.len() implies is_digit(#[trigger] u[k]) || u[k]
            == BYTE_DOT by {
            assert(u[k] == t@[k + start]);
        }
        assert forall|k: int, l: int| 0 <= k < l < u.len() implies !(u[k] == BYTE_DOT && u[l]
            == BYTE_DOT) by {
            assert(u[k] == t@[k + start]);
            assert(u[l] == t@[l + start]);
        }
        let j = choose|j: int| start <= j < n && is_digit(#[trigger] t@[j]);
        assert(u[j - start] == t@[j]);
        assert(spec_is_unsigned_number(u));
    }
    let ghost d = dot_abs as int - start as int;
    proof {
        // the scanned dot position is the spec's
        lemma_dot_index(u);
        if dot_abs < n {
            assert(u[dot_abs - start] == t@[dot_abs as int]);
            assert forall|k: int| 0 <= k < dot_abs - start implies u[k] != BYTE_DOT by {
                assert(u[k] == t@[k + start]);
            }
            assert(dot_index(u) == d);
        } else {
            assert forall|k: int| 0 <= k < u.len() implies u[k] != BYTE_DOT by {
                assert(u[k] == t@[k + start]);
            }
            assert(dot_index(u) == u.len());
            assert(d == dot_index(u));
        }
    }
    // integer part, with a cap at nine significant digits
    let mut acc: i64 = 0;
    let mut too_big: bool = false;
    let mut k: usize = start;
    while k < dot_abs
        invariant
            start <= k <= dot_abs <= n,
            n == t@.len(),
            u == t@.skip(start as int),
            u == strip_sign(t@),
            d == dot_abs as int - start as int,
            dot_abs == n || t@[dot_abs as int] == BYTE_DOT,
            forall|j: int| start <= j < dot_abs ==> is_digit(#[trigger] t@[j]),
            0 <= acc,
            !too_big ==> acc <= 999_999_999 && acc as int == digits_value(
                u.take(k as int - start as int),
            ),
            too_big ==> digits_value(u.take(k as int - start as int)) > 999_999_999,
        decreases dot_abs - k,
    {
        let ghost pre = u.take(k as int - start as int);
        let ghost post = u.take(k + 1 as int - start as int);
        proof {
            assert(u[k as int - start as int] == t@[k as int]);
            assert(post.take(post.len() - 1) =~= pre);
            assert(post.last() == u[k as int - start as int]);
            assert(digits_value(post) == digits_value(pre) * 10 + (t@[k as int] - BYTE_ZERO));
        }
        let dig = t[k] - BYTE_ZERO;
        if !too_big {
            let acc2 = acc * 10 + dig as i64;
            if acc2 > 999_999_999 {
                too_big = true;
            } else {
                acc = acc2;
            }
        } else {
            proof {
                assert(digits_value(pre) * 10 > 999_999_999 * 10) by {
                    vstd::arithmetic::mul::lemma_mul_strict_inequality(
                        999_999_999,
                        digits_value(pre),
                        10,
                    );
                }
            }
        }
        k = k + 1;
    }
    let ghost ipart = u.take(d);
    let ghost frac = if d < u.len() {
        u.skip(d + 1)
    } else {
        Seq::<u8>::empty()
    };
    let ghost f9 = frac.take(
        if frac.len() < 9 {
            frac.len() as int
        } else {
            9
        },
    );
    proof {
        assert(ipart == u.take(dot_abs as int - start as int));
        assert forall|j: int| 0 <= j < frac.len() implies is_digit(#[trigger] frac[j]) by {
            assert(frac[j] == u[d + 1 + j]);
            assert(u[d + 1 + j] == t@[d + 1 + j + start]);
        }
        assert(forall|j: int| 0 <= j < f9.len() ==> is_digit(#[trigger] f9[j]));
        lemma_digits_value_bound(f9);
        lemma_pow10_pos((9 - f9.len()) as nat);
        assert(digits_value(f9) * pow10((9 - f9.len()) as nat) >= 0) by {
            vstd::arithmetic::mul::lemma_mul_inequality(
                0,
                digits_value(f9),
                pow10((9 - f9.len()) as nat),
            );
        }
    }
    if too_big {
        proof {
            // the integer part alone pushes the value out of range
            assert(digits_value(ipart) >= 1_000_000_000);
            assert(digits_value(ipart) * (NANO_PER_DEGREE as int) >= 1_000_000_000
                * (NANO_PER_DEGREE as int)) by {
                vstd::arithmetic::mul::lemma_mul_inequality(
                    1_000_000_000,
                    digits_value(ipart),
                    NANO_PER_DEGREE as int,
                );
                vstd::arithmetic::mul::lemma_mul_is_commutative(
                    digits_value(ipart),
                    NANO_PER_DEGREE as int,
                );
                vstd::arithmetic::mul::lemma_mul_is_commutative(
                    1_000_000_000,
                    NANO_PER_DEGREE as int,
                );
            }
            assert(!spec_number_in_range(t@));
        }
        return None;
    }
    // fractional part: at most nine digits, the rest ignored
    let mut facc: i64 = 0;
    let mut fcnt: u32 = 0;
    if dot_abs < n {
        let mut k2: usize = dot_abs + 1;
        while k2 < n && fcnt < 9
            invariant
                dot_abs < n,
                dot_abs + 1 <= k2 <= n,
                n == t@.len(),
                u == t@.skip(start as int),
                d == dot_abs as int - start as int,
                0 <= d < u.len(),
                frac == u.skip(d + 1),
                forall|j: int| 0 <= j < frac.len() ==> is_digit(#[trigger] frac[j]),
                fcnt as int == k2 as int - dot_abs as int - 1,
                fcnt <= 9,
                0 <= facc,
                facc as int == digits_value(frac.take(fcnt as int)),
                (facc as int) < pow10(fcnt as nat),
            decreases n - k2,
        {
            let ghost pre = frac.take(fcnt as int);
            let ghost post = frac.take(fcnt + 1 as int);
            proof {
                assert(frac[fcnt as int] == u[d + 1 + fcnt]);
                assert(u[d + 1 + fcnt] == t@[d + 1 + fcnt + start]);
                assert(k2 as int == d + 1 + fcnt + start);
                assert(post.take(post.len() - 1) =~= pre);
                assert(post.last() == frac[fcnt as int]);
                assert(digits_value(post) == digits_value(pre) * 10 + (t@[k2 as int]
                    - BYTE_ZERO));
                assert(is_digit(t@[k2 as int]));
                assert(pow10((fcnt + 1) as nat) == 10 * pow10(fcnt as nat));
                assert(digits_value(pre) * 10 <= (pow10(fcnt as nat) - 1) * 10) by {
                    vstd::arithmetic::mul::lemma_mul_inequality(
                        digits_value(pre),
                        pow10(fcnt as nat) - 1,
                        10,
                    );
                }
            }
            proof {
                lemma_pow10_mono(fcnt as nat, 8);
                reveal_with_fuel(pow10, 9);
                assert(pow10(8) == 100_000_000);
            }
            let dig = t[k2] - BYTE_ZERO;
            facc = facc * 10 + dig as i64;
            fcnt = fcnt + 1;
            k2 = k2 + 1;
        }
        proof {
            if k2 == n {
                assert(frac.len() == n - (dot_abs + 1));
                assert(frac.take(fcnt as int) =~= frac);
                assert(f9 == frac.take(fcnt as int));
            } else {
                assert(fcnt == 9);
                assert(frac.len() >= 9);
                assert(f9 == frac.take(fcnt as int));
            }
        }
    } else {
        proof {
            assert(frac =~= Seq::<u8>::empty());
            assert(f9 =~= Seq::<u8>::empty());
            assert(frac.take(0) =~= f9);
            assert(facc as int == digits_value(f9));
        }
    }
    proof {
        assert(facc as int == digits_value(f9));
        assert(fcnt as int == f9.len());
    }
    let scale = pow10_exec(9 - fcnt);
    proof {
        // the fractional contribution stays below one degree's worth
        lemma_digits_value_bound(f9);
        lemma_pow10_pos((9 - fcnt) as nat);
        assert(facc as int * (scale as int) <= (pow10(fcnt as nat) - 1) * (scale as int)) by {
            vstd::arithmetic::mul::lemma_mul_inequality(
                facc as int,
                pow10(fcnt as nat) - 1,
                scale as int,
            );
        }
        assert((pow10(fcnt as nat) - 1) * (scale as int) < pow10(fcnt as nat) * (scale as int))
            by {
            vstd::arithmetic::mul::lemma_mul_strict_inequality(
                pow10(fcnt as nat) - 1,
                pow10(fcnt as nat),
                scale as int,
            );
        }
        lemma_pow10_add(fcnt as nat, (9 - fcnt) as nat);
        assert(pow10(fcnt as nat) * (scale as int) == pow10(9));
        reveal_with_fuel(pow10, 10);
        assert(pow10(9) == 1_000_000_000);
        assert(facc as int * (scale as int) >= 0) by {
            vstd::arithmetic::mul::lemma_mul_inequality(0, facc as int, scale as int);
        }
    }
    let fscaled = facc * scale;
    proof {
        assert(0 <= fscaled < 1_000_000_000);
    }
    let magnitude: i64 = acc * 1_000_000_000 + fscaled;
    proof {
        assert(acc as int * 1_000_000_000 <= 999_999_999 * 1_000_000_000) by {
            vstd::arithmetic::mul::lemma_mul_inequality(acc as int, 999_999_999, 1_000_000_000);
        }
        assert(acc as int * 1_000_000_000 >= 0) by {
            vstd::arithmetic::mul::lemma_mul_inequality(0, acc as int, 1_000_000_000);
        }
        assert(0 <= magnitude < 1_000_000_000_000_000_000);
        assert(digits_value(ipart) == acc as int);
        assert(spec_number_value(t@) == if spec_is_negative(t@) {
            -(magnitude as int)
        } else {
            magnitude as int
        });
        assert(spec_number_in_range(t@));
    }
    if neg {
        proof {
            assert(spec_is_negative(t@));
        }
        Some(-magnitude)
    } else {
        proof {
            assert(!spec_is_negative(t@));
        }
        Some(magnitude)
    }
}

/// Parse a bounding-box string: four comma-separated decimal
/// coordinates in degrees, in the order lower-left latitude, lower-left
/// longitude, upper-right latitude, upper-right longitude. The first
/// latitude must lie strictly between the poles. Errors come in this
/// order: token count first, then numeric shape, then latitude range;
/// nothing is parsed partially.
pub fn parse_bbox(s: &[u8]) -> (r: Result<GeoExtent, BboxError>)
    ensures
        ({
            let toks = spec_split(s@);
            match r {
                Ok(e) => {
                    &&& toks.len() == 4
                    &&& (forall|k: int| 0 <= k < 4 ==> spec_token_ok(#[trigger] toks[k]))
                    &&& (LAT_MIN as int) < spec_number_value(toks[0]) < (LAT_MAX as int)
                    &&& e == spec_bbox_extent(toks)
                },
                Err(err) => match err {
                    BboxError::WrongTokenCount => toks.len() != 4,
                    BboxError::NotANumber => toks.len() == 4 && !(forall|k: int|
                        0 <= k < 4 ==> spec_token_ok(#[trigger] toks[k])),
                    BboxError::LatitudeOutOfRange => {
                        &&& toks.len() == 4
                        &&& (forall|k: int| 0 <= k < 4 ==> spec_token_ok(#[trigger] toks[k]))
                        &&& !((LAT_MIN as int) < spec_number_value(toks[0]) < (LAT_MAX as int))
                    },
                },
            }
        }),
{
    let toks = split_commas(s);
    let ghost tv = spec_split(s@);
    proof {
        assert(tv == views(toks@));
    }
    if toks.len() != 4 {
        return Err(BboxError::WrongTokenCount);
    }
    proof {
        assert(tv.len() == 4);
        assert(tv[0] == toks@[0]@);
        assert(tv[1] == toks@[1]@);
        assert(tv[2] == toks@[2]@);
        assert(tv[3] == toks@[3]@);
    }
    let a = parse_number(toks[0].as_slice());
    let b = parse_number(toks[1].as_slice());
    let c = parse_number(toks[2].as_slice());
    let d = parse_number(toks[3].as_slice());
    let (av, bv, cv, dv): (i64, i64, i64, i64) = match (a, b, c, d) {
        (Some(av), Some(bv), Some(cv), Some(dv)) => (av, bv, cv, dv),
        _ => {
            return Err(BboxError::NotANumber);
        },
    };
    proof {
        assert forall|k: int| 0 <= k < 4 implies spec_token_ok(#[trigger] tv[k]) by {
            if k == 0 {
                assert(spec_token_ok(tv[0]));
            } else if k == 1 {
                assert(spec_token_ok(tv[1]));
            } else if k == 2 {
                assert(spec_token_ok(tv[2]));
            } else {
                assert(spec_token_ok(tv[3]));
            }
        }
    }
    if !(av > LAT_MIN && av < LAT_MAX) {
        return Err(BboxError::LatitudeOutOfRange);
    }
    Ok(GeoExtent { ll: GeoPoint { lat: av, lon: bv }, ur: GeoPoint { lat: cv, lon: dv } })
}

} // verus!
