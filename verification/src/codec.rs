//! The persisted atlas format and its proved round trip.
//!
//! An atlas is saved as a sequence of decimal integers, one per line:
//! the frame count, the category count, then for every frame and every
//! category in order the rectangle count followed by four coordinates
//! (min x, min y, max x, max y) per rectangle. Loading parses the text,
//! validates the structure, and rejects anything else.

use vstd::prelude::*;
use crate::errors::HitboxError;
use crate::hitboxes::{HitboxAtlas, Hitboxes};
use crate::rect::Rect;

verus! {

/// Longest digit run a numeric token may carry; enough for every
/// 64-bit count and coordinate.
pub const MAX_INT_DIGITS: usize = 20;

/// The byte value of the line separator.
pub const SEP: u8 = 10;

/// The byte value of the minus sign.
pub const MINUS: u8 = 45;

/// The byte value of the digit zero.
pub const ZERO: u8 = 48;

pub open spec fn is_digit(b: u8) -> bool {
    ZERO <= b <= 57
}

pub open spec fn all_digits(s: Seq<u8>) -> bool {
    forall|i: int| 0 <= i < s.len() ==> is_digit(#[trigger] s[i])
}

/// The value of a digit run, most significant digit first.
pub open spec fn digits_val(s: Seq<u8>) -> int
    decreases s.len(),
{
    if s.len() == 0 {
        0
    } else {
        digits_val(s.drop_last()) * 10 + (s.last() - ZERO)
    }
}

pub open spec fn pow10(k: nat) -> int
    decreases k,
{
    if k == 0 {
        1
    } else {
        10 * pow10((k - 1) as nat)
    }
}

/// The numeric value of one token: an optional minus sign followed by
/// one to `MAX_INT_DIGITS` decimal digits; anything else is rejected.
pub open spec fn parse_int(s: Seq<u8>) -> Option<i128> {
    if s.len() == 0 {
        None
    } else if s[0] == MINUS {
        let d = s.skip(1);
        if 1 <= d.len() <= MAX_INT_DIGITS && all_digits(d) {
            Some((0 - digits_val(d)) as i128)
        } else {
            None
        }
    } else {
        if s.len() <= MAX_INT_DIGITS && all_digits(s) {
            Some(digits_val(s) as i128)
        } else {
            None
        }
    }
}

/// The decimal digits of `n`, most significant first.
pub open spec fn dec_nat(n: nat) -> Seq<u8>
    decreases n,
{
    if n < 10 {
        seq![(ZERO + n) as u8]
    } else {
        dec_nat(n / 10) + seq![(ZERO + n % 10) as u8]
    }
}

/// The decimal token for `n`: its digits, sign first when negative.
pub open spec fn dec_int(n: int) -> Seq<u8> {
    if n < 0 {
        seq![MINUS] + dec_nat((0 - n) as nat)
    } else {
        dec_nat(n as nat)
    }
}

/// The serialized text of a number sequence: each value's decimal token
/// followed by one separator.
pub open spec fn ser_ints(ns: Seq<i128>) -> Seq<u8>
    decreases ns.len(),
{
    if ns.len() == 0 {
        Seq::empty()
    } else {
        dec_int(ns[0] as int) + seq![SEP] + ser_ints(ns.skip(1))
    }
}

/// One pass over the text: bytes accumulate into `tok` until a separator
/// closes the token, whose value joins `acc`. Trailing bytes without a
/// final separator, or an unparsable token, reject the whole input.
pub open spec fn parse_lines(s: Seq<u8>, tok: Seq<u8>, acc: Seq<i128>) -> Option<Seq<i128>>
    decreases s.len(),
{
    if s.len() == 0 {
        if tok.len() == 0 {
            Some(acc)
        } else {
            None
        }
    } else if s[0] == SEP {
        match parse_int(tok) {
            Option::None => None,
            Option::Some(n) => parse_lines(s.skip(1), Seq::empty(), acc.push(n)),
        }
    } else {
        parse_lines(s.skip(1), tok.push(s[0]), acc)
    }
}

/// The number sequence a text denotes, if it is well formed.
pub open spec fn tokenize(s: Seq<u8>) -> Option<Seq<i128>> {
    parse_lines(s, Seq::empty(), Seq::empty())
}

/// Every token value a serialized atlas can carry lies in this range:
/// coordinates are 64-bit signed, counts are machine sizes.
pub open spec fn in_token_range(v: i128) -> bool {
    i64::MIN as i128 <= v <= u64::MAX as i128
}

proof fn lemma_pow10_positive(k: nat)
    ensures
        pow10(k) >= 1,
    decreases k,
{
    if k > 0 {
        lemma_pow10_positive((k - 1) as nat);
    }
}

proof fn lemma_pow10_mono(a: nat, b: nat)
    requires
        a <= b,
    ensures
        pow10(a) <= pow10(b),
    decreases b,
{
    if a < b {
        lemma_pow10_mono(a, (b - 1) as nat);
        lemma_pow10_positive((b - 1) as nat);
    }
}

proof fn lemma_pow10_20()
    ensures
        pow10(20) == 100000000000000000000,
{
    reveal_with_fuel(pow10, 21);
}

/// The digits of `n` are digits, nonempty, and denote `n`.
proof fn lemma_dec_nat_correct(n: nat)
    ensures
        dec_nat(n).len() >= 1,
        all_digits(dec_nat(n)),
        digits_val(dec_nat(n)) == n,
    decreases n,
{
    if n < 10 {
        let s = dec_nat(n);
        assert(s.last() == (ZERO + n) as u8);
        assert(s.drop_last() =~= Seq::<u8>::empty());
        assert(digits_val(Seq::<u8>::empty()) == 0);
        assert(digits_val(s) == digits_val(s.drop_last()) * 10 + (s.last() - ZERO));
        assert(digits_val(s) == n);
    } else {
        lemma_dec_nat_correct(n / 10);
        let p = dec_nat(n / 10);
        let s = dec_nat(n);
        assert(s == p + seq![(ZERO + n % 10) as u8]);
        assert(s.drop_last() =~= p);
        assert(s.last() == (ZERO + n % 10) as u8);
        assert(digits_val(s) == digits_val(p) * 10 + (n % 10));
        assert(forall|i: int| 0 <= i < s.len() ==> is_digit(#[trigger] s[i])) by {
            assert(forall|i: int| 0 <= i < p.len() ==> s[i] == #[trigger] p[i]);
        }
    }
}

/// `n < 10^k` takes at most `k` digits.
proof fn lemma_dec_nat_len(n: nat, k: nat)
    requires
        k >= 1,
        n < pow10(k),
    ensures
        dec_nat(n).len() <= k,
    decreases k,
{
    if n >= 10 {
        assert(pow10(k) == 10 * pow10((k - 1) as nat));
        assert(n / 10 < pow10((k - 1) as nat));
        if k == 1 {
            lemma_pow10_positive(0);
            assert(false);
        }
        lemma_dec_nat_len(n / 10, (k - 1) as nat);
    }
}

/// Digit runs denote nonnegative values below `10^len`.
proof fn lemma_digits_val_bounds(s: Seq<u8>)
    requires
        all_digits(s),
    ensures
        0 <= digits_val(s) < pow10(s.len()),
    decreases s.len(),
{
    if s.len() > 0 {
        assert(all_digits(s.drop_last())) by {
            assert(forall|i: int|
                0 <= i < s.len() - 1 ==> #[trigger] s.drop_last()[i] == s[i]);
        }
        lemma_digits_val_bounds(s.drop_last());
        assert(pow10(s.len()) == 10 * pow10((s.len() - 1) as nat));
    }
}

/// Parsing the decimal token of an in-range value gives that value back.
proof fn lemma_parse_int_dec(n: i128)
    requires
        in_token_range(n),
    ensures
        parse_int(dec_int(n as int)) == Some(n),
    decreases (if n < 0 { 1int } else { 0int }),
{
    lemma_pow10_20();
    if n >= 0 {
        let s = dec_nat(n as nat);
        lemma_dec_nat_correct(n as nat);
        lemma_dec_nat_len(n as nat, 20);
        assert(s[0] != MINUS);
        assert(parse_int(s) == Some((digits_val(s)) as i128));
        assert(digits_val(s) == n);
    } else {
        let m = (0 - n) as nat;
        let d = dec_nat(m);
        lemma_dec_nat_correct(m);
        lemma_dec_nat_len(m, 20);
        let s = dec_int(n as int);
        assert(s == seq![MINUS] + d);
        assert(s[0] == MINUS);
        assert(s.skip(1) =~= d);
        assert(parse_int(s) == Some((0 - digits_val(d)) as i128));
        assert((0 - digits_val(d)) as i128 == n);
    }
}

/// No byte of a decimal token is the separator.
proof fn lemma_dec_int_no_sep(n: int)
    ensures
        forall|i: int| 0 <= i < dec_int(n).len() ==> dec_int(n)[i] != SEP,
{
    if n < 0 {
        lemma_dec_nat_correct((0 - n) as nat);
        let d = dec_nat((0 - n) as nat);
        let s = dec_int(n);
        assert(forall|i: int| 1 <= i < s.len() ==> s[i] == #[trigger] d[i - 1] && is_digit(d[i - 1]));
    } else {
        lemma_dec_nat_correct(n as nat);
    }
}

/// Bytes that are not separators only extend the pending token.
proof fn lemma_parse_lines_swallow(d: Seq<u8>, rest: Seq<u8>, tok: Seq<u8>, acc: Seq<i128>)
    requires
        forall|i: int| 0 <= i < d.len() ==> d[i] != SEP,
    ensures
        parse_lines(d + rest, tok, acc) == parse_lines(rest, tok + d, acc),
    decreases d.len(),
{
    if d.len() == 0 {
        assert(d + rest =~= rest);
        assert(tok + d =~= tok);
    } else {
        let s = d + rest;
        assert(s[0] == d[0]);
        assert(s.len() > 0);
        assert(s.skip(1) =~= d.skip(1) + rest);
        assert(forall|i: int| 0 <= i < d.skip(1).len() ==> #[trigger] d.skip(1)[i] != SEP);
        lemma_parse_lines_swallow(d.skip(1), rest, tok.push(d[0]), acc);
        assert(tok.push(d[0]) + d.skip(1) =~= tok + d);
    }
}

/// Parsing the serialized text of an in-range number sequence appends
/// exactly those numbers to the accumulator.
proof fn lemma_parse_lines_ser(ns: Seq<i128>, acc: Seq<i128>)
    requires
        forall|i: int| 0 <= i < ns.len() ==> in_token_range(#[trigger] ns[i]),
    ensures
        parse_lines(ser_ints(ns), Seq::empty(), acc) == Some(acc + ns),
    decreases ns.len(),
{
    if ns.len() == 0 {
        assert(ser_ints(ns) =~= Seq::<u8>::empty());
        assert(acc + ns =~= acc);
    } else {
        let n = ns[0];
        let d = dec_int(n as int);
        let tail = seq![SEP] + ser_ints(ns.skip(1));
        assert(ser_ints(ns) == d + seq![SEP] + ser_ints(ns.skip(1)));
        assert(ser_ints(ns) =~= d + tail);
        lemma_dec_int_no_sep(n as int);
        lemma_parse_lines_swallow(d, tail, Seq::empty(), acc);
        assert(Seq::empty() + d =~= d);
        assert(tail[0] == SEP);
        lemma_parse_int_dec(n);
        assert(tail.skip(1) =~= ser_ints(ns.skip(1)));
        assert(forall|i: int|
            0 <= i < ns.skip(1).len() ==> in_token_range(#[trigger] ns.skip(1)[i]));
        lemma_parse_lines_ser(ns.skip(1), acc.push(n));
        assert(acc.push(n) + ns.skip(1) =~= acc + ns);
    }
}

/// Tokenizing a serialized number sequence yields that sequence.
pub proof fn lemma_tokenize_ser(ns: Seq<i128>)
    requires
        forall|i: int| 0 <= i < ns.len() ==> in_token_range(#[trigger] ns[i]),
    ensures
        tokenize(ser_ints(ns)) == Some(ns),
{
    lemma_parse_lines_ser(ns, Seq::empty());
    assert(Seq::empty() + ns =~= ns);
}

/// The four numbers of one rectangle: min x, min y, max x, max y.
pub open spec fn rect_ints(r: Rect) -> Seq<i128> {
    seq![r.min_x as i128, r.min_y as i128, r.max_x as i128, r.max_y as i128]
}

/// The numbers of a rectangle list, in order.
pub open spec fn rects_ints(rs: Seq<Rect>) -> Seq<i128>
    decreases rs.len(),
{
    if rs.len() == 0 {
        Seq::empty()
    } else {
        rect_ints(rs[0]) + rects_ints(rs.skip(1))
    }
}

/// The numbers of one frame's categories: each category's rectangle count
/// followed by its rectangles.
pub open spec fn cats_ints(cs: Seq<Seq<Rect>>) -> Seq<i128>
    decreases cs.len(),
{
    if cs.len() == 0 {
        Seq::empty()
    } else {
        seq![cs[0].len() as i128] + rects_ints(cs[0]) + cats_ints(cs.skip(1))
    }
}

/// The numbers of all frames, in order.
pub open spec fn frames_ints(fs: Seq<Seq<Seq<Rect>>>) -> Seq<i128>
    decreases fs.len(),
{
    if fs.len() == 0 {
        Seq::empty()
    } else {
        cats_ints(fs[0]) + frames_ints(fs.skip(1))
    }
}

/// The full number sequence of an atlas: frame count, category count,
/// then every frame.
pub open spec fn atlas_ints(fs: Seq<Seq<Seq<Rect>>>, c: int) -> Seq<i128> {
    seq![fs.len() as i128, c as i128] + frames_ints(fs)
}

/// The persisted bytes of an atlas with frames `fs` and `c` categories.
pub open spec fn encode(fs: Seq<Seq<Seq<Rect>>>, c: int) -> Seq<u8> {
    ser_ints(atlas_ints(fs, c))
}

/// One rectangle from four numbers; rejected unless each coordinate is a
/// 64-bit value and the corners are normalized.
pub open spec fn rect_of(a: i128, b: i128, c: i128, d: i128) -> Option<Rect> {
    if i64::MIN <= a <= i64::MAX && i64::MIN <= b <= i64::MAX && i64::MIN <= c <= i64::MAX
        && i64::MIN <= d <= i64::MAX && a <= c && b <= d {
        Some(Rect { min_x: a as i64, min_y: b as i64, max_x: c as i64, max_y: d as i64 })
    } else {
        None
    }
}

/// `k` rectangles from the front of `ns`, with the numbers left over.
pub open spec fn parse_rects(ns: Seq<i128>, k: nat) -> Option<(Seq<Rect>, Seq<i128>)>
    decreases k,
{
    if k == 0 {
        Some((Seq::empty(), ns))
    } else if ns.len() < 4 {
        None
    } else {
        match rect_of(ns[0], ns[1], ns[2], ns[3]) {
            Option::None => None,
            Option::Some(r) => match parse_rects(ns.skip(4), (k - 1) as nat) {
                Option::None => None,
                Option::Some((rs, rest)) => Some((seq![r] + rs, rest)),
            },
        }
    }
}

/// `c` categories from the front of `ns`: each one rectangle count and
/// that many rectangles.
pub open spec fn parse_cats(ns: Seq<i128>, c: nat) -> Option<(Seq<Seq<Rect>>, Seq<i128>)>
    decreases c,
{
    if c == 0 {
        Some((Seq::empty(), ns))
    } else if ns.len() == 0 {
        None
    } else if ns[0] < 0 {
        None
    } else {
        match parse_rects(ns.skip(1), ns[0] as nat) {
            Option::None => None,
            Option::Some((rs, rest)) => match parse_cats(rest, (c - 1) as nat) {
                Option::None => None,
                Option::Some((cs, rest2)) => Some((seq![rs] + cs, rest2)),
            },
        }
    }
}

/// `f` frames of `c` categories each from the front of `ns`.
pub open spec fn parse_frames(ns: Seq<i128>, f: nat, c: nat) -> Option<
    (Seq<Seq<Seq<Rect>>>, Seq<i128>),
>
    decreases f,
{
    if f == 0 {
        Some((Seq::empty(), ns))
    } else {
        match parse_cats(ns, c) {
            Option::None => None,
            Option::Some((cats, rest)) => match parse_frames(rest, (f - 1) as nat, c) {
                Option::None => None,
                Option::Some((fs, rest2)) => Some((seq![cats] + fs, rest2)),
            },
        }
    }
}

/// A whole atlas from a number sequence: positive machine-size frame and
/// category counts, the announced frames, and nothing left over.
pub open spec fn parse_atlas(ns: Seq<i128>) -> Option<(Seq<Seq<Seq<Rect>>>, int)> {
    if ns.len() < 2 {
        None
    } else if 1 <= ns[0] <= usize::MAX as i128 && 1 <= ns[1] <= usize::MAX as i128 {
        match parse_frames(ns.skip(2), ns[0] as nat, ns[1] as nat) {
            Option::None => None,
            Option::Some((fs, rest)) => if rest.len() == 0 {
                Some((fs, ns[1] as int))
            } else {
                None
            },
        }
    } else {
        None
    }
}

/// The atlas a persisted text denotes, if it is well formed: its frames
/// and its category count.
pub open spec fn decode(s: Seq<u8>) -> Option<(Seq<Seq<Seq<Rect>>>, int)> {
    match tokenize(s) {
        Option::None => None,
        Option::Some(ns) => parse_atlas(ns),
    }
}

/// A successful rectangle parse yields `k` normalized rectangles and
/// consumes exactly `4 * k` numbers.
pub proof fn lemma_parse_rects_shape(ns: Seq<i128>, k: nat)
    ensures
        parse_rects(ns, k) matches Some(p) ==> {
            &&& p.0.len() == k
            &&& p.1.len() + 4 * k == ns.len()
            &&& forall|j: int| 0 <= j < k ==> (#[trigger] p.0[j]).is_normalized()
        },
    decreases k,
{
    if k > 0 && ns.len() >= 4 && rect_of(ns[0], ns[1], ns[2], ns[3]) is Some {
        lemma_parse_rects_shape(ns.skip(4), (k - 1) as nat);
    }
}

/// A successful category parse yields `c` categories of normalized
/// rectangles and consumes at least `c` numbers.
pub proof fn lemma_parse_cats_shape(ns: Seq<i128>, c: nat)
    ensures
        parse_cats(ns, c) matches Some(p) ==> {
            &&& p.0.len() == c
            &&& p.1.len() + c <= ns.len()
            &&& forall|i: int, j: int|
                0 <= i < c && 0 <= j < p.0[i].len() ==> (#[trigger] p.0[i][j]).is_normalized()
        },
    decreases c,
{
    if c > 0 && ns.len() > 0 && ns[0] >= 0 {
        lemma_parse_rects_shape(ns.skip(1), ns[0] as nat);
        match parse_rects(ns.skip(1), ns[0] as nat) {
            Option::Some(p) => lemma_parse_cats_shape(p.1, (c - 1) as nat),
            Option::None => {},
        }
    }
}

/// A successful frame parse yields `f` frames of exactly `c` categories
/// each, all rectangles normalized, consuming at least `f * c` numbers.
pub proof fn lemma_parse_frames_shape(ns: Seq<i128>, f: nat, c: nat)
    ensures
        parse_frames(ns, f, c) matches Some(p) ==> {
            &&& p.0.len() == f
            &&& p.1.len() <= ns.len()
            &&& forall|i: int| 0 <= i < f ==> (#[trigger] p.0[i]).len() == c
            &&& forall|i: int, j: int, l: int|
                0 <= i < f && 0 <= j < c && 0 <= l < p.0[i][j].len() ==> (
                #[trigger] p.0[i][j][l]).is_normalized()
        },
    decreases f,
{
    if f > 0 {
        lemma_parse_cats_shape(ns, c);
        match parse_cats(ns, c) {
            Option::Some(p) => lemma_parse_frames_shape(p.1, (f - 1) as nat, c),
            Option::None => {},
        }
    }
}

/// Parsing the serialized numbers of a normalized rectangle list, with any
/// numbers appended, yields that list and the appended numbers.
proof fn lemma_parse_rects_ser(rs: Seq<Rect>, tail: Seq<i128>)
    requires
        forall|j: int| 0 <= j < rs.len() ==> (#[trigger] rs[j]).is_normalized(),
    ensures
        parse_rects(rects_ints(rs) + tail, rs.len()) == Some((rs, tail)),
    decreases rs.len(),
{
    if rs.len() == 0 {
        assert(rects_ints(rs) + tail =~= tail);
    } else {
        let r = rs[0];
        let ns = rects_ints(rs) + tail;
        assert(rects_ints(rs) == rect_ints(r) + rects_ints(rs.skip(1)));
        assert(ns =~= rect_ints(r) + (rects_ints(rs.skip(1)) + tail));
        assert(ns[0] == r.min_x as i128 && ns[1] == r.min_y as i128 && ns[2] == r.max_x as i128
            && ns[3] == r.max_y as i128);
        assert(rect_of(ns[0], ns[1], ns[2], ns[3]) == Some(r));
        assert(ns.skip(4) =~= rects_ints(rs.skip(1)) + tail);
        assert(forall|j: int| 0 <= j < rs.skip(1).len() ==> (#[trigger] rs.skip(1)[j]).is_normalized());
        lemma_parse_rects_ser(rs.skip(1), tail);
        assert(seq![r] + rs.skip(1) =~= rs);
    }
}

/// Parsing the serialized numbers of one frame's categories, with any
/// numbers appended, yields those categories and the appended numbers.
proof fn lemma_parse_cats_ser(cs: Seq<Seq<Rect>>, tail: Seq<i128>)
    requires
        forall|i: int, j: int|
            0 <= i < cs.len() && 0 <= j < cs[i].len() ==> (#[trigger] cs[i][j]).is_normalized(),
        forall|i: int| 0 <= i < cs.len() ==> (#[trigger] cs[i]).len() <= usize::MAX,
    ensures
        parse_cats(cats_ints(cs) + tail, cs.len()) == Some((cs, tail)),
    decreases cs.len(),
{
    if cs.len() == 0 {
        assert(cats_ints(cs) + tail =~= tail);
    } else {
        let k = cs[0].len();
        let ns = cats_ints(cs) + tail;
        assert(cats_ints(cs) == seq![k as i128] + rects_ints(cs[0]) + cats_ints(cs.skip(1)));
        assert(ns[0] == k as i128);
        assert(ns.skip(1) =~= rects_ints(cs[0]) + (cats_ints(cs.skip(1)) + tail));
        assert(forall|j: int| 0 <= j < cs[0].len() ==> (#[trigger] cs[0][j]).is_normalized());
        lemma_parse_rects_ser(cs[0], cats_ints(cs.skip(1)) + tail);
        assert(forall|i: int, j: int|
            0 <= i < cs.skip(1).len() && 0 <= j < cs.skip(1)[i].len() ==> (
            #[trigger] cs.skip(1)[i][j]).is_normalized());
        assert(forall|i: int| 0 <= i < cs.skip(1).len() ==> (#[trigger] cs.skip(1)[i]).len() <= usize::MAX);
        lemma_parse_cats_ser(cs.skip(1), tail);
        assert(seq![cs[0]] + cs.skip(1) =~= cs);
    }
}

/// Parsing the serialized numbers of whole frames, with any numbers
/// appended, yields those frames and the appended numbers.
proof fn lemma_parse_frames_ser(fs: Seq<Seq<Seq<Rect>>>, c: nat, tail: Seq<i128>)
    requires
        forall|i: int| 0 <= i < fs.len() ==> (#[trigger] fs[i]).len() == c,
        forall|i: int, j: int|
            0 <= i < fs.len() && 0 <= j < c ==> (#[trigger] fs[i][j]).len() <= usize::MAX,
        forall|i: int, j: int, l: int|
            0 <= i < fs.len() && 0 <= j < c && 0 <= l < fs[i][j].len() ==> (
            #[trigger] fs[i][j][l]).is_normalized(),
    ensures
        parse_frames(frames_ints(fs) + tail, fs.len(), c) == Some((fs, tail)),
    decreases fs.len(),
{
    if fs.len() == 0 {
        assert(frames_ints(fs) + tail =~= tail);
    } else {
        let ns = frames_ints(fs) + tail;
        assert(frames_ints(fs) == cats_ints(fs[0]) + frames_ints(fs.skip(1)));
        assert(ns =~= cats_ints(fs[0]) + (frames_ints(fs.skip(1)) + tail));
        assert(forall|i: int, j: int|
            0 <= i < fs[0].len() && 0 <= j < fs[0][i].len() ==> (
            #[trigger] fs[0][i][j]).is_normalized());
        assert(forall|i: int| 0 <= i < fs[0].len() ==> (#[trigger] fs[0][i]).len() <= usize::MAX);
        lemma_parse_cats_ser(fs[0], frames_ints(fs.skip(1)) + tail);
        assert(fs[0].len() == c);
        assert(forall|i: int| 0 <= i < fs.skip(1).len() ==> (#[trigger] fs.skip(1)[i]).len() == c);
        assert(forall|i: int, j: int|
            0 <= i < fs.skip(1).len() && 0 <= j < c ==> (#[trigger] fs.skip(1)[i][j]).len()
                <= usize::MAX);
        assert(forall|i: int, j: int, l: int|
            0 <= i < fs.skip(1).len() && 0 <= j < c && 0 <= l < fs.skip(1)[i][j].len() ==> (
            #[trigger] fs.skip(1)[i][j][l]).is_normalized());
        lemma_parse_frames_ser(fs.skip(1), c, tail);
        assert(seq![fs[0]] + fs.skip(1) =~= fs);
    }
}

/// Every number in a rectangle list's serialization is in token range.
proof fn lemma_rects_ints_range(rs: Seq<Rect>)
    ensures
        forall|i: int| 0 <= i < rects_ints(rs).len() ==> in_token_range(#[trigger] rects_ints(rs)[i]),
    decreases rs.len(),
{
    if rs.len() > 0 {
        lemma_rects_ints_range(rs.skip(1));
        let a = rect_ints(rs[0]);
        let b = rects_ints(rs.skip(1));
        assert(rects_ints(rs) == a + b);
        assert(in_token_range(a[0]) && in_token_range(a[1]) && in_token_range(a[2])
            && in_token_range(a[3]));
        assert forall|i: int| 0 <= i < (a + b).len() implies in_token_range(#[trigger] (a + b)[i]) by {
            if i < a.len() {
                assert((a + b)[i] == a[i]);
            } else {
                assert((a + b)[i] == b[i - a.len()]);
            }
        }
    }
}

/// Every number in one frame's serialization is in token range.
proof fn lemma_cats_ints_range(cs: Seq<Seq<Rect>>)
    requires
        forall|i: int| 0 <= i < cs.len() ==> (#[trigger] cs[i]).len() <= usize::MAX,
    ensures
        forall|i: int| 0 <= i < cats_ints(cs).len() ==> in_token_range(#[trigger] cats_ints(cs)[i]),
    decreases cs.len(),
{
    if cs.len() > 0 {
        lemma_rects_ints_range(cs[0]);
        assert(forall|i: int| 0 <= i < cs.skip(1).len() ==> (#[trigger] cs.skip(1)[i]).len() <= usize::MAX);
        lemma_cats_ints_range(cs.skip(1));
        let a = seq![cs[0].len() as i128] + rects_ints(cs[0]);
        let b = cats_ints(cs.skip(1));
        assert(cats_ints(cs) == a + b);
        assert(in_token_range(a[0]));
        assert forall|i: int| 0 <= i < (a + b).len() implies in_token_range(#[trigger] (a + b)[i]) by {
            if i < a.len() {
                assert((a + b)[i] == a[i]);
                if i >= 1 {
                    assert(a[i] == rects_ints(cs[0])[i - 1]);
                }
            } else {
                assert((a + b)[i] == b[i - a.len()]);
            }
        }
    }
}

/// Every number in the frames' serialization is in token range.
proof fn lemma_frames_ints_range(fs: Seq<Seq<Seq<Rect>>>)
    requires
        forall|i: int, j: int|
            0 <= i < fs.len() && 0 <= j < fs[i].len() ==> (#[trigger] fs[i][j]).len() <= usize::MAX,
    ensures
        forall|i: int|
            0 <= i < frames_ints(fs).len() ==> in_token_range(#[trigger] frames_ints(fs)[i]),
    decreases fs.len(),
{
    if fs.len() > 0 {
        assert(forall|i: int| 0 <= i < fs[0].len() ==> (#[trigger] fs[0][i]).len() <= usize::MAX);
        lemma_cats_ints_range(fs[0]);
        assert(forall|i: int, j: int|
            0 <= i < fs.skip(1).len() && 0 <= j < fs.skip(1)[i].len() ==> (
            #[trigger] fs.skip(1)[i][j]).len() <= usize::MAX);
        lemma_frames_ints_range(fs.skip(1));
        let a = cats_ints(fs[0]);
        let b = frames_ints(fs.skip(1));
        assert(frames_ints(fs) == a + b);
        assert forall|i: int| 0 <= i < (a + b).len() implies in_token_range(#[trigger] (a + b)[i]) by {
            if i < a.len() {
                assert((a + b)[i] == a[i]);
            } else {
                assert((a + b)[i] == b[i - a.len()]);
            }
        }
    }
}

/// The round trip: decoding the encoding of any atlas shape that an atlas
/// value can hold gives back exactly its frames and category count. Since
/// `save_hitboxes` produces exactly `encode` and `load_hitboxes` returns
/// exactly what `decode` denotes, saving any atlas and loading the saved
/// text back restores its frame count, category count, rectangle counts,
/// order, and coordinates.
pub proof fn lemma_decode_encode(fs: Seq<Seq<Seq<Rect>>>, c: int)
    requires
        1 <= fs.len() <= usize::MAX,
        1 <= c <= usize::MAX,
        forall|i: int| 0 <= i < fs.len() ==> (#[trigger] fs[i]).len() == c,
        forall|i: int, j: int|
            0 <= i < fs.len() && 0 <= j < c ==> (#[trigger] fs[i][j]).len() <= usize::MAX,
        forall|i: int, j: int, l: int|
            0 <= i < fs.len() && 0 <= j < c && 0 <= l < fs[i][j].len() ==> (
            #[trigger] fs[i][j][l]).is_normalized(),
    ensures
        decode(encode(fs, c)) == Some((fs, c)),
{
    let ns = atlas_ints(fs, c);
    assert(forall|i: int, j: int|
        0 <= i < fs.len() && 0 <= j < fs[i].len() ==> (#[trigger] fs[i][j]).len() <= usize::MAX);
    lemma_frames_ints_range(fs);
    assert(forall|i: int| 0 <= i < ns.len() ==> in_token_range(#[trigger] ns[i])) by {
        assert(in_token_range(ns[0]));
        assert(in_token_range(ns[1]));
        assert(forall|i: int|
            2 <= i < ns.len() ==> ns[i] == #[trigger] frames_ints(fs)[i - 2] && in_token_range(
                frames_ints(fs)[i - 2],
            ));
    }
    lemma_tokenize_ser(ns);
    assert(ns[0] == fs.len() as i128);
    assert(ns[1] == c as i128);
    assert(ns.skip(2) =~= frames_ints(fs) + Seq::<i128>::empty());
    lemma_parse_frames_ser(fs, c as nat, Seq::empty());
    assert(parse_atlas(ns) == Some((fs, c)));
}

proof fn lemma_ser_ints_append(a: Seq<i128>, b: Seq<i128>)
    ensures
        ser_ints(a + b) == ser_ints(a) + ser_ints(b),
    decreases a.len(),
{
    if a.len() == 0 {
        assert(a + b =~= b);
        assert(ser_ints(a) + ser_ints(b) =~= ser_ints(b));
    } else {
        let s = a + b;
        assert(s[0] == a[0]);
        assert(s.skip(1) =~= a.skip(1) + b);
        lemma_ser_ints_append(a.skip(1), b);
        assert(ser_ints(a + b) =~= ser_ints(a) + ser_ints(b));
    }
}

proof fn lemma_ser_ints_one(n: i128)
    ensures
        ser_ints(seq![n]) == dec_int(n as int) + seq![SEP],
{
    assert(seq![n].skip(1) =~= Seq::<i128>::empty());
    assert(seq![n][0] == n);
    assert(ser_ints(Seq::<i128>::empty()) == Seq::<u8>::empty());
    assert(ser_ints(seq![n]) == dec_int(seq![n][0] as int) + seq![SEP] + ser_ints(seq![n].skip(1)));
    assert(ser_ints(seq![n]) =~= dec_int(n as int) + seq![SEP]);
}

/// Appends the decimal digits of `m`, most significant first.
fn push_dec_nat(out: &mut Vec<u8>, m: u128)
    ensures
        final(out)@ == old(out)@ + dec_nat(m as nat),
    decreases m,
{
    if m < 10 {
        out.push(ZERO + (m as u8));
        assert(out@ =~= old(out)@ + dec_nat(m as nat));
    } else {
        push_dec_nat(out, m / 10);
        out.push(ZERO + ((m % 10) as u8));
        assert(out@ =~= old(out)@ + dec_nat(m as nat));
    }
}

/// Appends one number as a decimal token followed by the separator.
fn push_int_line(out: &mut Vec<u8>, n: i128)
    requires
        in_token_range(n),
    ensures
        final(out)@ == old(out)@ + dec_int(n as int) + seq![SEP],
{
    if n < 0 {
        out.push(MINUS);
        push_dec_nat(out, (-n) as u128);
        assert((-n) as u128 as nat == (0 - n as int) as nat);
    } else {
        push_dec_nat(out, n as u128);
    }
    out.push(SEP);
    assert(out@ =~= old(out)@ + dec_int(n as int) + seq![SEP]);
}

proof fn lemma_ser_ints_rect(r: Rect)
    ensures
        ser_ints(rect_ints(r)) == dec_int(r.min_x as int) + seq![SEP] + dec_int(r.min_y as int)
            + seq![SEP] + dec_int(r.max_x as int) + seq![SEP] + dec_int(r.max_y as int)
            + seq![SEP],
{
    let a = r.min_x as i128;
    let b = r.min_y as i128;
    let c = r.max_x as i128;
    let d = r.max_y as i128;
    assert(rect_ints(r) =~= seq![a] + (seq![b] + (seq![c] + seq![d])));
    lemma_ser_ints_append(seq![a], seq![b] + (seq![c] + seq![d]));
    lemma_ser_ints_append(seq![b], seq![c] + seq![d]);
    lemma_ser_ints_append(seq![c], seq![d]);
    lemma_ser_ints_one(a);
    lemma_ser_ints_one(b);
    lemma_ser_ints_one(c);
    lemma_ser_ints_one(d);
    assert(ser_ints(rect_ints(r)) =~= dec_int(r.min_x as int) + seq![SEP] + dec_int(
        r.min_y as int,
    ) + seq![SEP] + dec_int(r.max_x as int) + seq![SEP] + dec_int(r.max_y as int) + seq![SEP]);
}

/// Appends the rectangles of category `c`, from position `j` on.
fn write_rects(out: &mut Vec<u8>, frame: &Hitboxes, c: usize, j: usize)
    requires
        c < frame@.len(),
        j <= frame@[c as int].len(),
    ensures
        final(out)@ == old(out)@ + ser_ints(rects_ints(frame@[c as int].skip(j as int))),
    decreases frame@[c as int].len() - j,
{
    let n = frame.hitbox_count(c);
    if j == n {
        proof {
            assert(frame@[c as int].skip(j as int) =~= Seq::<Rect>::empty());
            assert(out@ =~= old(out)@ + ser_ints(rects_ints(Seq::<Rect>::empty())));
        }
        return ;
    }
    let r = frame.get_hitbox(c, j);
    push_int_line(out, r.min_x as i128);
    push_int_line(out, r.min_y as i128);
    push_int_line(out, r.max_x as i128);
    push_int_line(out, r.max_y as i128);
    proof {
        lemma_ser_ints_rect(r);
    }
    let ghost mid = out@;
    write_rects(out, frame, c, j + 1);
    proof {
        let rs = frame@[c as int].skip(j as int);
        assert(rs[0] == r);
        assert(rs.skip(1) =~= frame@[c as int].skip(j as int + 1));
        assert(rects_ints(rs) == rect_ints(r) + rects_ints(rs.skip(1)));
        lemma_ser_ints_append(rect_ints(r), rects_ints(rs.skip(1)));
        assert(mid =~= old(out)@ + ser_ints(rect_ints(r)));
        assert(out@ =~= old(out)@ + ser_ints(rects_ints(rs)));
    }
}

/// Appends the categories of one frame, from category `c` on: each
/// category's rectangle count, then its rectangles.
fn write_cats(out: &mut Vec<u8>, frame: &Hitboxes, c: usize)
    requires
        c <= frame@.len(),
    ensures
        final(out)@ == old(out)@ + ser_ints(cats_ints(frame@.skip(c as int))),
    decreases frame@.len() - c,
{
    let n = frame.category_count();
    if c == n {
        proof {
            assert(frame@.skip(c as int) =~= Seq::<Seq<Rect>>::empty());
            assert(out@ =~= old(out)@ + ser_ints(cats_ints(Seq::<Seq<Rect>>::empty())));
        }
        return ;
    }
    let k = frame.hitbox_count(c);
    proof {
        assert(in_token_range(k as i128));
    }
    push_int_line(out, k as i128);
    let ghost mid1 = out@;
    write_rects(out, frame, c, 0);
    let ghost mid2 = out@;
    write_cats(out, frame, c + 1);
    proof {
        let cs = frame@.skip(c as int);
        assert(cs[0] == frame@[c as int]);
        assert(cs.skip(1) =~= frame@.skip(c as int + 1));
        assert(cats_ints(cs) == seq![cs[0].len() as i128] + rects_ints(cs[0]) + cats_ints(
            cs.skip(1),
        ));
        assert(frame@[c as int].skip(0) =~= frame@[c as int]);
        lemma_ser_ints_one(k as i128);
        lemma_ser_ints_append(seq![cs[0].len() as i128], rects_ints(cs[0]));
        lemma_ser_ints_append(seq![cs[0].len() as i128] + rects_ints(cs[0]), cats_ints(cs.skip(1)));
        assert(mid1 =~= old(out)@ + ser_ints(seq![cs[0].len() as i128]));
        assert(mid2 =~= old(out)@ + ser_ints(seq![cs[0].len() as i128] + rects_ints(cs[0])));
        assert(out@ =~= old(out)@ + ser_ints(cats_ints(cs)));
    }
}

/// Appends whole frames, from frame `f` on.
fn write_frames(out: &mut Vec<u8>, atlas: &HitboxAtlas, f: usize)
    requires
        f <= atlas@.len(),
    ensures
        final(out)@ == old(out)@ + ser_ints(frames_ints(atlas@.skip(f as int))),
    decreases atlas@.len() - f,
{
    let n = atlas.frame_count();
    if f == n {
        proof {
            assert(atlas@.skip(f as int) =~= Seq::<Seq<Seq<Rect>>>::empty());
            assert(out@ =~= old(out)@ + ser_ints(frames_ints(Seq::<Seq<Seq<Rect>>>::empty())));
        }
        return ;
    }
    let frame = atlas.get_frame(f);
    let ghost mid = out@;
    write_cats(out, frame, 0);
    write_frames(out, atlas, f + 1);
    proof {
        let fs = atlas@.skip(f as int);
        assert(fs[0] == atlas@[f as int]);
        assert(fs.skip(1) =~= atlas@.skip(f as int + 1));
        assert(frames_ints(fs) == cats_ints(fs[0]) + frames_ints(fs.skip(1)));
        assert(frame@.skip(0) =~= frame@);
        lemma_ser_ints_append(cats_ints(fs[0]), frames_ints(fs.skip(1)));
        assert(out@ =~= old(out)@ + ser_ints(frames_ints(fs)));
    }
}

/// Serializes a whole atlas to its persisted text.
pub fn save_hitboxes(atlas: &HitboxAtlas) -> (out: Vec<u8>)
    ensures
        out@ == encode(atlas@, atlas.spec_category_count()),
{
    let mut out: Vec<u8> = Vec::new();
    let frame_count = atlas.frame_count();
    let category_count = atlas.category_count();
    push_int_line(&mut out, frame_count as i128);
    let ghost mid = out@;
    push_int_line(&mut out, category_count as i128);
    write_frames(&mut out, atlas, 0);
    proof {
        let f_tok = atlas@.len() as i128;
        let c_tok = atlas.spec_category_count() as i128;
        assert(atlas@.skip(0) =~= atlas@);
        lemma_ser_ints_one(f_tok);
        lemma_ser_ints_one(c_tok);
        lemma_ser_ints_append(seq![f_tok], seq![c_tok]);
        lemma_ser_ints_append(seq![f_tok, c_tok], frames_ints(atlas@));
        assert(seq![f_tok] + seq![c_tok] =~= seq![f_tok, c_tok]);
        assert(atlas_ints(atlas@, atlas.spec_category_count()) =~= seq![f_tok, c_tok] + frames_ints(
            atlas@,
        ));
        assert(mid =~= ser_ints(seq![f_tok]));
        assert(out@ =~= ser_ints(atlas_ints(atlas@, atlas.spec_category_count())));
    }
    out
}

/// Evaluates one token exactly as `parse_int` does.
fn parse_token(tok: &Vec<u8>) -> (r: Option<i128>)
    ensures
        r == parse_int(tok@),
{
    if tok.len() == 0 {
        return None;
    }
    let neg: bool = tok[0] == MINUS;
    let start: usize = if neg { 1 } else { 0 };
    let ndigits: usize = tok.len() - start;
    if ndigits == 0 || ndigits > MAX_INT_DIGITS {
        proof {
            if neg {
                assert(tok@.skip(1).len() == tok@.len() - 1);
                assert(parse_int(tok@) is None);
            } else {
                assert(tok@.len() > MAX_INT_DIGITS);
                assert(parse_int(tok@) is None);
            }
        }
        return None;
    }
    let ghost d = if neg { tok@.skip(1) } else { tok@ };
    proof {
        assert(d =~= tok@.subrange(start as int, tok@.len() as int));
        lemma_pow10_20();
    }
    let mut acc: i128 = 0;
    let mut i: usize = start;
    while i < tok.len()
        invariant
            start <= i <= tok@.len(),
            tok@.len() > 0,
            neg == (tok@[0] == MINUS),
            start == if neg { 1int } else { 0int },
            d == (if neg { tok@.skip(1) } else { tok@ }),
            d == tok@.subrange(start as int, tok@.len() as int),
            1 <= tok@.len() - start <= MAX_INT_DIGITS,
            pow10(20) == 100000000000000000000,
            forall|j: int| start <= j < i ==> is_digit(#[trigger] tok@[j]),
            0 <= acc < pow10((i - start) as nat),
            acc == digits_val(tok@.subrange(start as int, i as int)),
        decreases tok@.len() - i,
    {
        let b = tok[i];
        if b < ZERO || b > 57 {
            proof {
                assert(d[i - start] == tok@[i as int]);
                assert(!is_digit(tok@[i as int]));
                assert(!all_digits(d));
                if neg {
                    assert(tok@[0] == MINUS);
                    assert(d == tok@.skip(1));
                    assert(!all_digits(tok@.skip(1)));
                    assert(parse_int(tok@) is None);
                } else {
                    assert(tok@[0] != MINUS);
                    assert(d == tok@);
                    assert(parse_int(tok@) is None);
                }
            }
            return None;
        }
        proof {
            let pre = tok@.subrange(start as int, i as int);
            let nxt = tok@.subrange(start as int, i as int + 1);
            assert(nxt.drop_last() =~= pre);
            assert(nxt.last() == tok@[i as int]);
            assert(digits_val(nxt) == digits_val(pre) * 10 + (b - ZERO));
            lemma_pow10_mono((i - start + 1) as nat, 20);
            assert(pow10((i - start + 1) as nat) == 10 * pow10((i - start) as nat));
        }
        acc = acc * 10 + ((b - ZERO) as i128);
        i = i + 1;
    }
    proof {
        assert(tok@.subrange(start as int, tok@.len() as int) =~= d);
        assert(all_digits(d));
        assert(d.len() == ndigits);
        assert(acc == digits_val(d));
    }
    if neg {
        proof {
            assert(parse_int(tok@) == Some((0 - digits_val(d)) as i128));
            assert((0 - digits_val(d)) as i128 == -acc);
        }
        Some(-acc)
    } else {
        proof {
            assert(tok@[0] != MINUS);
            assert(parse_int(tok@) == Some(digits_val(d) as i128));
        }
        Some(acc)
    }
}

/// Splits the text at separators and evaluates every token, exactly as
/// `tokenize` does.
fn tokenize_exec(data: &Vec<u8>) -> (r: Option<Vec<i128>>)
    ensures
        match r {
            Option::Some(v) => tokenize(data@) == Some(v@),
            Option::None => tokenize(data@) is None,
        },
{
    let mut i: usize = 0;
    let mut cur: Vec<u8> = Vec::new();
    let mut ints: Vec<i128> = Vec::new();
    proof {
        assert(data@.skip(0) =~= data@);
    }
    while i < data.len()
        invariant
            i <= data@.len(),
            tokenize(data@) == parse_lines(data@.skip(i as int), cur@, ints@),
        decreases data@.len() - i,
    {
        let b = data[i];
        proof {
            assert(data@.skip(i as int)[0] == b);
            assert(data@.skip(i as int).skip(1) =~= data@.skip(i as int + 1));
        }
        if b == SEP {
            match parse_token(&cur) {
                Option::None => {
                    return None;
                },
                Option::Some(n) => {
                    ints.push(n);
                    cur.clear();
                },
            }
        } else {
            cur.push(b);
        }
        i = i + 1;
    }
    proof {
        assert(data@.skip(data@.len() as int) =~= Seq::<u8>::empty());
    }
    if cur.len() > 0 {
        return None;
    }
    Some(ints)
}

/// The frame views held by a loader-built frame vector.
pub open spec fn frame_views(s: Seq<Hitboxes>) -> Seq<Seq<Seq<Rect>>> {
    s.map(|i: int, h: Hitboxes| h@)
}

/// The category views held by a loader-built category vector.
pub open spec fn rect_list_views(s: Seq<Vec<Rect>>) -> Seq<Seq<Rect>> {
    s.map(|i: int, v: Vec<Rect>| v@)
}

/// Reads `k` rectangles starting at `pos`, exactly as `parse_rects` does,
/// appending them to `out` and returning the next position.
fn parse_rects_x(ints: &Vec<i128>, pos: usize, k: usize, out: &mut Vec<Rect>) -> (r: Option<usize>)
    requires
        pos <= ints@.len(),
    ensures
        ({
            let sp = parse_rects(ints@.skip(pos as int), k as nat);
            match r {
                Option::Some(np) => sp matches Some(p) && pos <= np <= ints@.len() && ints@.skip(
                    np as int,
                ) == p.1 && final(out)@ == old(out)@ + p.0,
                Option::None => sp is None,
            }
        }),
    decreases k,
{
    let ghost ns = ints@.skip(pos as int);
    if k == 0 {
        proof {
            assert(out@ =~= old(out)@ + Seq::<Rect>::empty());
        }
        return Some(pos);
    }
    if ints.len() - pos < 4 {
        return None;
    }
    let a = ints[pos];
    let b = ints[pos + 1];
    let c = ints[pos + 2];
    let d = ints[pos + 3];
    proof {
        assert(ns[0] == a && ns[1] == b && ns[2] == c && ns[3] == d);
    }
    if a < i64::MIN as i128 || a > i64::MAX as i128 || b < i64::MIN as i128 || b > i64::MAX as i128
        || c < i64::MIN as i128 || c > i64::MAX as i128 || d < i64::MIN as i128 || d > i64::MAX
        as i128 || a > c || b > d {
        proof {
            assert(rect_of(a, b, c, d) is None);
        }
        return None;
    }
    let rect = Rect { min_x: a as i64, min_y: b as i64, max_x: c as i64, max_y: d as i64 };
    proof {
        assert(rect_of(a, b, c, d) == Some(rect));
        assert(ns.skip(4) =~= ints@.skip(pos as int + 4));
    }
    out.push(rect);
    let ghost mid = out@;
    let r = parse_rects_x(ints, pos + 4, k - 1, out);
    proof {
        match parse_rects(ns.skip(4), (k - 1) as nat) {
            Option::Some(p) => {
                assert(parse_rects(ns, k as nat) == Some::<(Seq<Rect>, Seq<i128>)>((
                    seq![rect] + p.0,
                    p.1,
                )));
                assert(old(out)@ + (seq![rect] + p.0) =~= (old(out)@ + seq![rect]) + p.0);
                assert(mid =~= old(out)@ + seq![rect]);
            },
            Option::None => {},
        }
    }
    r
}

/// Reads `c` categories starting at `pos`, exactly as `parse_cats` does,
/// appending them to `out` and returning the next position.
fn parse_cats_x(ints: &Vec<i128>, pos: usize, c: usize, out: &mut Vec<Vec<Rect>>) -> (r: Option<
    usize,
>)
    requires
        pos <= ints@.len(),
    ensures
        ({
            let sp = parse_cats(ints@.skip(pos as int), c as nat);
            match r {
                Option::Some(np) => sp matches Some(p) && pos <= np <= ints@.len() && ints@.skip(
                    np as int,
                ) == p.1 && rect_list_views(final(out)@) == rect_list_views(old(out)@) + p.0,
                Option::None => sp is None,
            }
        }),
    decreases c,
{
    let ghost ns = ints@.skip(pos as int);
    if c == 0 {
        proof {
            assert(rect_list_views(out@) =~= rect_list_views(old(out)@) + Seq::<Seq<Rect>>::empty());
        }
        return Some(pos);
    }
    if pos >= ints.len() {
        return None;
    }
    let k = ints[pos];
    proof {
        assert(ns[0] == k);
    }
    if k < 0 {
        return None;
    }
    let rem: usize = ints.len() - (pos + 1);
    proof {
        assert(ns.skip(1) =~= ints@.skip(pos as int + 1));
    }
    if k > rem as i128 {
        proof {
            lemma_parse_rects_shape(ns.skip(1), k as nat);
            assert(parse_rects(ns.skip(1), k as nat) is None);
        }
        return None;
    }
    let ku: usize = k as usize;
    let mut rects: Vec<Rect> = Vec::new();
    let rr = parse_rects_x(ints, pos + 1, ku, &mut rects);
    match rr {
        Option::None => {
            return None;
        },
        Option::Some(np) => {
            let ghost sp_rects = parse_rects(ns.skip(1), ku as nat);
            out.push(rects);
            let ghost mid = out@;
            let r = parse_cats_x(ints, np, c - 1, out);
            proof {
                let p = sp_rects->Some_0;
                assert(rects@ == Seq::<Rect>::empty() + p.0);
                assert(rects@ =~= p.0);
                match parse_cats(p.1, (c - 1) as nat) {
                    Option::Some(q) => {
                        assert(parse_cats(ns, c as nat) == Some::<(Seq<Seq<Rect>>, Seq<i128>)>((
                            seq![p.0] + q.0,
                            q.1,
                        )));
                        assert(rect_list_views(mid) =~= rect_list_views(old(out)@) + seq![p.0]);
                        assert(rect_list_views(old(out)@) + (seq![p.0] + q.0) =~= (rect_list_views(
                            old(out)@,
                        ) + seq![p.0]) + q.0);
                    },
                    Option::None => {},
                }
            }
            r
        },
    }
}

/// Reads `f` frames of `c` categories each starting at `pos`, exactly as
/// `parse_frames` does, appending them to `out`.
fn parse_frames_x(ints: &Vec<i128>, pos: usize, f: usize, c: usize, out: &mut Vec<Hitboxes>) -> (r:
    Option<usize>)
    requires
        pos <= ints@.len(),
    ensures
        ({
            let sp = parse_frames(ints@.skip(pos as int), f as nat, c as nat);
            match r {
                Option::Some(np) => sp matches Some(p) && pos <= np <= ints@.len() && ints@.skip(
                    np as int,
                ) == p.1 && frame_views(final(out)@) == frame_views(old(out)@) + p.0,
                Option::None => sp is None,
            }
        }),
    decreases f,
{
    let ghost ns = ints@.skip(pos as int);
    if f == 0 {
        proof {
            assert(frame_views(out@) =~= frame_views(old(out)@) + Seq::<Seq<Seq<Rect>>>::empty());
        }
        return Some(pos);
    }
    let mut cats: Vec<Vec<Rect>> = Vec::new();
    let rr = parse_cats_x(ints, pos, c, &mut cats);
    match rr {
        Option::None => {
            return None;
        },
        Option::Some(np) => {
            let ghost sp_cats = parse_cats(ns, c as nat);
            let frame = Hitboxes::from_categories(cats);
            proof {
                let p = sp_cats->Some_0;
                assert(rect_list_views(cats@) == Seq::<Seq<Rect>>::empty() + p.0);
                assert(rect_list_views(cats@) =~= p.0);
                assert(frame@ =~= p.0);
            }
            out.push(frame);
            let ghost mid = out@;
            let r = parse_frames_x(ints, np, f - 1, c, out);
            proof {
                let p = sp_cats->Some_0;
                match parse_frames(p.1, (f - 1) as nat, c as nat) {
                    Option::Some(q) => {
                        assert(parse_frames(ns, f as nat, c as nat) == Some::<(
                            Seq<Seq<Seq<Rect>>>,
                            Seq<i128>,
                        )>((seq![p.0] + q.0, q.1)));
                        assert(frame_views(mid) =~= frame_views(old(out)@) + seq![frame@]);
                        assert(seq![frame@] =~= seq![p.0]);
                        assert(frame_views(old(out)@) + (seq![p.0] + q.0) =~= (frame_views(old(out)@)
                            + seq![p.0]) + q.0);
                    },
                    Option::None => {},
                }
            }
            r
        },
    }
}

/// Parses persisted text back into an atlas, exactly as `decode` does.
/// Malformed text is rejected without effect.
pub fn load_hitboxes(data: &Vec<u8>) -> (r: Result<HitboxAtlas, HitboxError>)
    ensures
        match r {
            Result::Ok(atlas) => decode(data@) == Some((atlas@, atlas.spec_category_count()))
                && atlas.wf(),
            Result::Err(e) => decode(data@) is None && e == HitboxError::FormatParseFailure,
        },
{
    let ints = match tokenize_exec(data) {
        Option::None => {
            return Err(HitboxError::FormatParseFailure);
        },
        Option::Some(v) => v,
    };
    if ints.len() < 2 {
        return Err(HitboxError::FormatParseFailure);
    }
    let f = ints[0];
    let c = ints[1];
    if f < 1 || f > usize::MAX as i128 || c < 1 || c > usize::MAX as i128 {
        return Err(HitboxError::FormatParseFailure);
    }
    let fu: usize = f as usize;
    let cu: usize = c as usize;
    let mut frames: Vec<Hitboxes> = Vec::new();
    let rr = parse_frames_x(&ints, 2, fu, cu, &mut frames);
    let np = match rr {
        Option::None => {
            return Err(HitboxError::FormatParseFailure);
        },
        Option::Some(np) => np,
    };
    if np != ints.len() {
        proof {
            assert(ints@.skip(np as int).len() != 0);
        }
        return Err(HitboxError::FormatParseFailure);
    }
    let atlas = HitboxAtlas::from_frames(frames, cu);
    proof {
        let sp = parse_frames(ints@.skip(2), fu as nat, cu as nat);
        let p = sp->Some_0;
        assert(frame_views(frames@) == Seq::<Seq<Seq<Rect>>>::empty() + p.0);
        assert(frame_views(frames@) =~= p.0);
        assert(atlas@ =~= frame_views(frames@));
        assert(ints@.skip(np as int).len() == 0);
        assert(parse_atlas(ints@) == Some((p.0, cu as int)));
        lemma_parse_frames_shape(ints@.skip(2), fu as nat, cu as nat);
        assert(atlas.wf());
    }
    Ok(atlas)
}

} // verus!
