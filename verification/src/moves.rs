use vstd::prelude::*;
use vstd::string::StringSliceAdditionalSpecFns;

use crate::state::{
    rotated_x, rotated_x_prime, rotated_y, rotated_y_prime, rotated_z, rotated_z_prime, sliced_e,
    sliced_e_prime, sliced_m, sliced_m_prime, sliced_s, sliced_s_prime, turned_b, turned_b_prime,
    turned_d, turned_d_prime, turned_f, turned_f_prime, turned_l, turned_l_prime, turned_r,
    turned_r_prime, turned_u, turned_u_prime, CubeState,
};

verus! {

/// One discrete action on the cube: a face turn, a whole-cube rotation,
/// or an inner-layer slice. Slice kinds carry their 0-based layer index;
/// the primed variant of each kind is its exact inverse.
#[derive(Copy, Clone, Debug, PartialEq, Eq, Structural)]
pub enum Move {
    U,
    Up,
    D,
    Dp,
    R,
    Rp,
    L,
    Lp,
    F,
    Fp,
    B,
    Bp,
    X,
    Xp,
    Y,
    Yp,
    Z,
    Zp,
    M(usize),
    Mp(usize),
    E(usize),
    Ep(usize),
    S(usize),
    Sp(usize),
}

/// The layer a slice move carries is inside the cube's index range.
/// Turns and rotations carry no layer and are always in bounds.
pub open spec fn move_in_bounds(m: Move, n: nat) -> bool {
    match m {
        Move::M(l) | Move::Mp(l) | Move::E(l) | Move::Ep(l) | Move::S(l) | Move::Sp(l) => l < n,
        _ => true,
    }
}

/// The state after one move: each of the 24 actions reduces to the face
/// rotation and slice primitives.
pub open spec fn applied(s: CubeState, m: Move) -> CubeState {
    match m {
        Move::U => turned_u(s),
        Move::Up => turned_u_prime(s),
        Move::D => turned_d(s),
        Move::Dp => turned_d_prime(s),
        Move::R => turned_r(s),
        Move::Rp => turned_r_prime(s),
        Move::L => turned_l(s),
        Move::Lp => turned_l_prime(s),
        Move::F => turned_f(s),
        Move::Fp => turned_f_prime(s),
        Move::B => turned_b(s),
        Move::Bp => turned_b_prime(s),
        Move::X => rotated_x(s),
        Move::Xp => rotated_x_prime(s),
        Move::Y => rotated_y(s),
        Move::Yp => rotated_y_prime(s),
        Move::Z => rotated_z(s),
        Move::Zp => rotated_z_prime(s),
        Move::M(l) => sliced_m(s, l as int),
        Move::Mp(l) => sliced_m_prime(s, l as int),
        Move::E(l) => sliced_e(s, l as int),
        Move::Ep(l) => sliced_e_prime(s, l as int),
        Move::S(l) => sliced_s(s, l as int),
        Move::Sp(l) => sliced_s_prime(s, l as int),
    }
}

/// The primed counterpart of a move: its exact inverse, and vice versa.
pub open spec fn prime_of(m: Move) -> Move {
    match m {
        Move::U => Move::Up,
        Move::Up => Move::U,
        Move::D => Move::Dp,
        Move::Dp => Move::D,
        Move::R => Move::Rp,
        Move::Rp => Move::R,
        Move::L => Move::Lp,
        Move::Lp => Move::L,
        Move::F => Move::Fp,
        Move::Fp => Move::F,
        Move::B => Move::Bp,
        Move::Bp => Move::B,
        Move::X => Move::Xp,
        Move::Xp => Move::X,
        Move::Y => Move::Yp,
        Move::Yp => Move::Y,
        Move::Z => Move::Zp,
        Move::Zp => Move::Z,
        Move::M(l) => Move::Mp(l),
        Move::Mp(l) => Move::M(l),
        Move::E(l) => Move::Ep(l),
        Move::Ep(l) => Move::E(l),
        Move::S(l) => Move::Sp(l),
        Move::Sp(l) => Move::S(l),
    }
}

/// Whole-cube rotations change only the viewer's frame, never the
/// relative tile positions; drivers count them apart from turns.
pub open spec fn spec_is_rotation(m: Move) -> bool {
    match m {
        Move::X | Move::Xp | Move::Y | Move::Yp | Move::Z | Move::Zp => true,
        _ => false,
    }
}

impl Move {
    /// True exactly for the six whole-cube rotations.
    pub fn is_rotation(&self) -> (r: bool)
        ensures
            r == spec_is_rotation(*self),
    {
        match *self {
            Move::X | Move::Xp | Move::Y | Move::Yp | Move::Z | Move::Zp => true,
            _ => false,
        }
    }

    /// The notation for this move, for rendering by callers.
    pub fn text(&self) -> (r: &'static str)
        ensures
            r@ == match *self {
                Move::U => "U"@,
                Move::Up => "U'"@,
                Move::D => "D"@,
                Move::Dp => "D'"@,
                Move::R => "R"@,
                Move::Rp => "R'"@,
                Move::L => "L"@,
                Move::Lp => "L'"@,
                Move::F => "F"@,
                Move::Fp => "F'"@,
                Move::B => "B"@,
                Move::Bp => "B'"@,
                Move::X => "X"@,
                Move::Xp => "X'"@,
                Move::Y => "Y"@,
                Move::Yp => "Y'"@,
                Move::Z => "Z"@,
                Move::Zp => "Z'"@,
                Move::M(_) => "M"@,
                Move::Mp(_) => "M'"@,
                Move::E(_) => "E"@,
                Move::Ep(_) => "E'"@,
                Move::S(_) => "S"@,
                Move::Sp(_) => "S'"@,
            },
    {
        match *self {
            Move::U => "U",
            Move::Up => "U'",
            Move::D => "D",
            Move::Dp => "D'",
            Move::R => "R",
            Move::Rp => "R'",
            Move::L => "L",
            Move::Lp => "L'",
            Move::F => "F",
            Move::Fp => "F'",
            Move::B => "B",
            Move::Bp => "B'",
            Move::X => "X",
            Move::Xp => "X'",
            Move::Y => "Y",
            Move::Yp => "Y'",
            Move::Z => "Z",
            Move::Zp => "Z'",
            Move::M(_) => "M",
            Move::Mp(_) => "M'",
            Move::E(_) => "E",
            Move::Ep(_) => "E'",
            Move::S(_) => "S",
            Move::Sp(_) => "S'",
        }
    }
}

/// Why a token of the pattern was rejected.
#[derive(Copy, Clone, Debug, PartialEq, Eq, Structural)]
pub enum ParseError {
    /// The token does not parse as `count? action layer?`.
    GrammarMismatch,
    /// A slice layer outside the strictly interior range.
    InvalidLayer,
    /// A slice move on a cube larger than 3 needs an explicit layer.
    MissingLayer,
    /// A cube smaller than 3 has no interior layer to slice.
    TooSmallForSlice,
}

/// A rejected token: the reason and where the token sits in the pattern.
#[derive(Copy, Clone, Debug, PartialEq, Eq, Structural)]
pub struct ParseFailure {
    pub reason: ParseError,
    pub start: usize,
    pub end: usize,
}

impl ParseError {
    /// Human-readable description of the rejection, for callers to show.
    pub fn message(&self) -> (r: &'static str)
        ensures
            r@ == match *self {
                ParseError::GrammarMismatch => "Token does not match count?action layer?"@,
                ParseError::InvalidLayer => "Slice layer must be between 2 and (cube size - 1)"@,
                ParseError::MissingLayer => "Slice moves on cubes of size > 3 require a layer"@,
                ParseError::TooSmallForSlice => "Cube is too small for a slice. Please use a side turn like U or R"@,
            },
    {
        match *self {
            ParseError::GrammarMismatch => "Token does not match count?action layer?",
            ParseError::InvalidLayer => "Slice layer must be between 2 and (cube size - 1)",
            ParseError::MissingLayer => "Slice moves on cubes of size > 3 require a layer",
            ParseError::TooSmallForSlice => "Cube is too small for a slice. Please use a side turn like U or R",
        }
    }
}

/// Whitespace separates tokens of the pattern.
pub open spec fn is_space(b: u8) -> bool {
    b == 32 || b == 9 || b == 10 || b == 13
}

/// ASCII decimal digit.
pub open spec fn is_digit(b: u8) -> bool {
    48 <= b && b <= 57
}

/// ASCII upper-casing: action letters are case-insensitive.
pub open spec fn to_upper(b: u8) -> u8 {
    if 97 <= b && b <= 122 {
        (b - 32) as u8
    } else {
        b
    }
}

/// One of the twelve action letters, either case: U D R L F B X Y Z M E S.
pub open spec fn is_action_letter(b: u8) -> bool {
    let u = to_upper(b);
    u == 85 || u == 68 || u == 82 || u == 76 || u == 70 || u == 66 || u == 88 || u == 89 || u == 90
        || u == 77 || u == 69 || u == 83
}

/// One of the three slice letters, either case: M E S.
pub open spec fn is_slice_letter(b: u8) -> bool {
    let u = to_upper(b);
    u == 77 || u == 69 || u == 83
}

/// First position at or after `i` that does not hold a digit.
pub open spec fn digits_end(s: Seq<u8>, i: int) -> int
    decreases s.len() - i,
{
    if i < 0 || i >= s.len() {
        i
    } else if !is_digit(s[i]) {
        i
    } else {
        digits_end(s, i + 1)
    }
}

/// First position at or after `i` that holds whitespace: the end of the
/// token starting at `i`.
pub open spec fn token_end(s: Seq<u8>, i: int) -> int
    decreases s.len() - i,
{
    if i < 0 || i >= s.len() {
        i
    } else if is_space(s[i]) {
        i
    } else {
        token_end(s, i + 1)
    }
}

pub proof fn lemma_digits_end(s: Seq<u8>, i: int)
    requires
        0 <= i <= s.len(),
    ensures
        i <= digits_end(s, i) <= s.len(),
        forall|j: int| i <= j < digits_end(s, i) ==> is_digit(#[trigger] s[j]),
        digits_end(s, i) == s.len() || !is_digit(s[digits_end(s, i)]),
    decreases s.len() - i,
{
    if i < s.len() && is_digit(s[i]) {
        lemma_digits_end(s, i + 1);
    }
}

pub proof fn lemma_token_end(s: Seq<u8>, i: int)
    requires
        0 <= i <= s.len(),
    ensures
        i <= token_end(s, i) <= s.len(),
        forall|j: int| i <= j < token_end(s, i) ==> !is_space(#[trigger] s[j]),
        token_end(s, i) == s.len() || is_space(s[token_end(s, i)]),
    decreases s.len() - i,
{
    if i < s.len() && !is_space(s[i]) {
        lemma_token_end(s, i + 1);
    }
}

/// The number a run of digits denotes.
pub open spec fn digits_val(w: Seq<u8>) -> nat
    decreases w.len(),
{
    if w.len() == 0 {
        0
    } else {
        (digits_val(w.drop_last()) * 10 + (w.last() - 48)) as nat
    }
}

/// The move a non-slice action letter (already uppercased) denotes.
pub open spec fn plain_move_of(letter: u8, primed: bool) -> Move {
    if letter == 85 {
        if primed { Move::Up } else { Move::U }
    } else if letter == 68 {
        if primed { Move::Dp } else { Move::D }
    } else if letter == 82 {
        if primed { Move::Rp } else { Move::R }
    } else if letter == 76 {
        if primed { Move::Lp } else { Move::L }
    } else if letter == 70 {
        if primed { Move::Fp } else { Move::F }
    } else if letter == 66 {
        if primed { Move::Bp } else { Move::B }
    } else if letter == 88 {
        if primed { Move::Xp } else { Move::X }
    } else if letter == 89 {
        if primed { Move::Yp } else { Move::Y }
    } else {
        if primed { Move::Zp } else { Move::Z }
    }
}

/// The move a slice letter (already uppercased) denotes, at a 0-based
/// interior layer.
pub open spec fn slice_move_of(letter: u8, primed: bool, layer: int) -> Move {
    if letter == 77 {
        if primed { Move::Mp(layer as usize) } else { Move::M(layer as usize) }
    } else if letter == 69 {
        if primed { Move::Ep(layer as usize) } else { Move::E(layer as usize) }
    } else {
        if primed { Move::Sp(layer as usize) } else { Move::S(layer as usize) }
    }
}

/// What one token means on a cube of edge length `size`: either a count
/// and a validated move, or the reason it is rejected.
///
/// The grammar is `count? action layer?`: optional digits, one action
/// letter with an optional prime, optional digits. The count defaults to
/// 1 and is reduced modulo 4. A slice layer is written 1-based and must
/// land strictly inside the cube; with no layer written, a size-3 cube
/// defaults to its single interior layer, a larger cube rejects the
/// token and a smaller one cannot slice at all. Turns and rotations
/// ignore a written layer.
pub open spec fn token_result(w: Seq<u8>, size: nat) -> Result<(nat, Move), ParseError> {
    let d1 = digits_end(w, 0);
    if d1 >= w.len() || !is_action_letter(w[d1]) {
        Err(ParseError::GrammarMismatch)
    } else {
        let primed = d1 + 1 < w.len() && w[d1 + 1] == 39;
        let ls = if primed { d1 + 2 } else { d1 + 1 };
        if digits_end(w, ls) != w.len() {
            Err(ParseError::GrammarMismatch)
        } else {
            let count: nat = if d1 == 0 { 1 } else { digits_val(w.subrange(0, d1)) % 4 };
            let letter = to_upper(w[d1]);
            if is_slice_letter(w[d1]) {
                if ls == w.len() {
                    if size > 3 {
                        Err(ParseError::MissingLayer)
                    } else if size < 3 {
                        Err(ParseError::TooSmallForSlice)
                    } else {
                        Ok((count, slice_move_of(letter, primed, 1)))
                    }
                } else {
                    let lv = digits_val(w.subrange(ls, w.len() as int));
                    if lv < 2 || lv + 1 > size {
                        Err(ParseError::InvalidLayer)
                    } else {
                        Ok((count, slice_move_of(letter, primed, lv - 1)))
                    }
                }
            } else {
                Ok((count, plain_move_of(letter, primed)))
            }
        }
    }
}

/// `k` repetitions of one move.
pub open spec fn repeat_move(m: Move, k: nat) -> Seq<Move> {
    Seq::new(k, |i: int| m)
}

/// The fully expanded move list under the lenient policy: every valid
/// token contributes its repetitions, every rejected token is skipped.
pub open spec fn lenient_from(s: Seq<u8>, size: nat, i: int) -> Seq<Move>
    decreases s.len() - i,
    when 0 <= i
    via lenient_from_decreases
{
    if i >= s.len() {
        Seq::empty()
    } else if is_space(s[i]) {
        lenient_from(s, size, i + 1)
    } else {
        let e = token_end(s, i);
        let rest = lenient_from(s, size, e);
        match token_result(s.subrange(i, e), size) {
            Ok((cnt, m)) => repeat_move(m, cnt) + rest,
            Err(_) => rest,
        }
    }
}

#[via_fn]
proof fn lenient_from_decreases(s: Seq<u8>, size: nat, i: int) {
    if 0 <= i && i < s.len() && !is_space(s[i]) {
        lemma_token_end(s, i);
    }
}

/// The result under the strict policy: the expanded move list, unless
/// some token is rejected — then the first rejected token with its
/// reason and position, and nothing else.
pub open spec fn strict_from(s: Seq<u8>, size: nat, i: int) -> Result<Seq<Move>, ParseFailure>
    decreases s.len() - i,
    when 0 <= i
    via strict_from_decreases
{
    if i >= s.len() {
        Ok(Seq::empty())
    } else if is_space(s[i]) {
        strict_from(s, size, i + 1)
    } else {
        let e = token_end(s, i);
        match token_result(s.subrange(i, e), size) {
            Err(r) => Err(ParseFailure { reason: r, start: i as usize, end: e as usize }),
            Ok((cnt, m)) => match strict_from(s, size, e) {
                Ok(rest) => Ok(repeat_move(m, cnt) + rest),
                Err(f) => Err(f),
            },
        }
    }
}

#[via_fn]
proof fn strict_from_decreases(s: Seq<u8>, size: nat, i: int) {
    if 0 <= i && i < s.len() && !is_space(s[i]) {
        lemma_token_end(s, i);
    }
}

fn byte_is_space(b: u8) -> (r: bool)
    ensures
        r == is_space(b),
{
    b == 32 || b == 9 || b == 10 || b == 13
}

fn byte_is_digit(b: u8) -> (r: bool)
    ensures
        r == is_digit(b),
{
    48 <= b && b <= 57
}

fn byte_to_upper(b: u8) -> (r: u8)
    ensures
        r == to_upper(b),
{
    if 97 <= b && b <= 122 {
        b - 32
    } else {
        b
    }
}

fn byte_is_action(b: u8) -> (r: bool)
    ensures
        r == is_action_letter(b),
{
    let u = byte_to_upper(b);
    u == 85 || u == 68 || u == 82 || u == 76 || u == 70 || u == 66 || u == 88 || u == 89 || u == 90
        || u == 77 || u == 69 || u == 83
}

fn byte_is_slice(b: u8) -> (r: bool)
    ensures
        r == is_slice_letter(b),
{
    let u = byte_to_upper(b);
    u == 77 || u == 69 || u == 83
}

/// The move an action letter denotes; `layer` is used by the slice
/// letters and ignored by the rest.
fn move_for(letter: u8, primed: bool, layer: usize) -> (m: Move)
    requires
        is_action_letter(letter),
    ensures
        m == (if is_slice_letter(letter) {
            slice_move_of(to_upper(letter), primed, layer as int)
        } else {
            plain_move_of(to_upper(letter), primed)
        }),
{
    let u = byte_to_upper(letter);
    if byte_is_slice(letter) {
        if u == 77 {
            if primed { Move::Mp(layer) } else { Move::M(layer) }
        } else if u == 69 {
            if primed { Move::Ep(layer) } else { Move::E(layer) }
        } else {
            if primed { Move::Sp(layer) } else { Move::S(layer) }
        }
    } else {
        if u == 85 {
            if primed { Move::Up } else { Move::U }
        } else if u == 68 {
            if primed { Move::Dp } else { Move::D }
        } else if u == 82 {
            if primed { Move::Rp } else { Move::R }
        } else if u == 76 {
            if primed { Move::Lp } else { Move::L }
        } else if u == 70 {
            if primed { Move::Fp } else { Move::F }
        } else if u == 66 {
            if primed { Move::Bp } else { Move::B }
        } else if u == 88 {
            if primed { Move::Xp } else { Move::X }
        } else if u == 89 {
            if primed { Move::Yp } else { Move::Y }
        } else {
            if primed { Move::Zp } else { Move::Z }
        }
    }
}

/// Parse and validate the single token at `bytes[start..end]`, exactly
/// as `token_result` describes.
fn parse_move(bytes: &[u8], start: usize, end: usize, size: usize) -> (r: Result<
    (usize, Move),
    ParseError,
>)
    requires
        start <= end <= bytes@.len(),
    ensures
        ({
            let w = bytes@.subrange(start as int, end as int);
            match r {
                Ok(cm) => token_result(w, size as nat) == Ok::<(nat, Move), ParseError>(
                    (cm.0 as nat, cm.1),
                ),
                Err(e) => token_result(w, size as nat) == Err::<(nat, Move), ParseError>(e),
            }
        }),
{
    let ghost w = bytes@.subrange(start as int, end as int);

    // Leading digit run: the optional repeat count.
    let mut i: usize = start;
    while i < end && byte_is_digit(bytes[i])
        invariant
            start <= i <= end,
            end <= bytes@.len(),
            w == bytes@.subrange(start as int, end as int),
            digits_end(w, 0) == digits_end(w, i - start),
        decreases end - i,
    {
        i += 1;
    }
    let d1 = i;
    proof {
        assert(digits_end(w, d1 - start) == d1 - start);
        lemma_digits_end(w, 0);
    }
    if d1 == end || !byte_is_action(bytes[d1]) {
        return Err(ParseError::GrammarMismatch);
    }
    let letter = bytes[d1];
    let primed = d1 + 1 < end && bytes[d1 + 1] == 39;
    let ls = if primed {
        d1 + 2
    } else {
        d1 + 1
    };

    // Trailing digit run: the optional layer; it must reach the token's
    // end, or the token does not match the grammar.
    let mut j: usize = ls;
    while j < end && byte_is_digit(bytes[j])
        invariant
            ls <= j <= end,
            end <= bytes@.len(),
            start <= ls <= end,
            w == bytes@.subrange(start as int, end as int),
            digits_end(w, ls - start) == digits_end(w, j - start),
        decreases end - j,
    {
        j += 1;
    }
    proof {
        assert(digits_end(w, j - start) == j - start);
        lemma_digits_end(w, ls - start);
    }
    if j != end {
        return Err(ParseError::GrammarMismatch);
    }

    // The repeat count, reduced modulo 4 as it is read.
    let mut count: usize = 1;
    if d1 > start {
        count = 0;
        let mut k: usize = start;
        while k < d1
            invariant
                start <= k <= d1,
                d1 <= end <= bytes@.len(),
                w == bytes@.subrange(start as int, end as int),
                count < 4,
                digits_end(w, 0) == d1 - start,
                forall|t: int| 0 <= t < d1 - start ==> is_digit(#[trigger] w[t]),
                count == digits_val(w.subrange(0, k - start)) % 4,
            decreases d1 - k,
        {
            assert(is_digit(w[k - start]));
            let d = bytes[k] - 48;
            proof {
                let p = w.subrange(0, k - start + 1);
                assert(p.drop_last() =~= w.subrange(0, k - start));
                assert(p.last() == w[k - start]);
                let a = digits_val(w.subrange(0, k - start)) as int;
                vstd::arithmetic::div_mod::lemma_add_mod_noop(a * 10, d as int, 4);
                vstd::arithmetic::div_mod::lemma_mul_mod_noop_left(a, 10, 4);
                vstd::arithmetic::div_mod::lemma_add_mod_noop((a % 4) * 10, d as int, 4);
            }
            count = (count * 10 + (d as usize)) % 4;
            k += 1;
        }
    }

    if byte_is_slice(letter) {
        if ls == end {
            // No layer written: only a size-3 cube has a single interior
            // layer to default to.
            if size > 3 {
                return Err(ParseError::MissingLayer);
            }
            if size < 3 {
                return Err(ParseError::TooSmallForSlice);
            }
            Ok((count, move_for(letter, primed, 1)))
        } else {
            // The 1-based layer as written; values beyond `size` all fail
            // the same range check, so reading stops caring past it.
            let mut lv: usize = 0;
            let mut too_big = false;
            let mut k: usize = ls;
            proof {
                assert(w.subrange(ls - start, ls - start) =~= Seq::<u8>::empty());
            }
            while k < end
                invariant
                    ls <= k <= end,
                    start <= ls <= end <= bytes@.len(),
                    w == bytes@.subrange(start as int, end as int),
                    digits_end(w, ls - start) == w.len(),
                    forall|t: int| ls - start <= t < w.len() ==> is_digit(#[trigger] w[t]),
                    !too_big ==> lv == digits_val(w.subrange(ls - start, k - start)) && lv <= size,
                    too_big ==> digits_val(w.subrange(ls - start, k - start)) > size,
                decreases end - k,
            {
                assert(is_digit(w[k - start]));
                let d = bytes[k] - 48;
                proof {
                    let p = w.subrange(ls - start, k - start + 1);
                    assert(p.drop_last() =~= w.subrange(ls - start, k - start));
                    assert(p.last() == w[k - start]);
                    vstd::arithmetic::div_mod::lemma_fundamental_div_mod(size as int, 10);
                }
                if too_big {
                } else if lv > size / 10 {
                    too_big = true;
                } else {
                    let t = lv * 10;
                    if (d as usize) > size - t {
                        too_big = true;
                    } else {
                        lv = t + (d as usize);
                    }
                }
                k += 1;
            }
            let ghost lv_spec = digits_val(w.subrange(ls - start, w.len() as int));
            if too_big || lv < 2 || lv >= size {
                return Err(ParseError::InvalidLayer);
            }
            Ok((count, move_for(letter, primed, lv - 1)))
        }
    } else {
        Ok((count, move_for(letter, primed, 0)))
    }
}

impl Move {
    /// Parse a whole pattern on a cube of edge length `size`: the
    /// whitespace-separated tokens, each validated and count-expanded as
    /// `token_result` describes. Under the strict policy the first
    /// rejected token aborts the parse and is reported with its position;
    /// under the lenient policy rejected tokens are skipped.
    pub fn parse_moves(pattern: &str, size: usize, strict: bool) -> (r: Result<
        Vec<Move>,
        ParseFailure,
    >)
        ensures
            ({
                let s = pattern.spec_bytes();
                match r {
                    Ok(moves) => if strict {
                        strict_from(s, size as nat, 0) == Ok::<Seq<Move>, ParseFailure>(moves@)
                    } else {
                        moves@ == lenient_from(s, size as nat, 0)
                    },
                    Err(f) => strict && strict_from(s, size as nat, 0) == Err::<
                        Seq<Move>,
                        ParseFailure,
                    >(f),
                }
            }),
    {
        let bytes = pattern.as_bytes();
        let ghost s = bytes@;
        let n = bytes.len();
        let mut moves: Vec<Move> = Vec::new();
        let mut i: usize = 0;
        while i < n
            invariant
                i <= n,
                n == s.len(),
                bytes@ == s,
                s == pattern.spec_bytes(),
                strict ==> strict_from(s, size as nat, 0) == (match strict_from(
                    s,
                    size as nat,
                    i as int,
                ) {
                    Ok(rest) => Ok::<Seq<Move>, ParseFailure>(moves@ + rest),
                    Err(f) => Err::<Seq<Move>, ParseFailure>(f),
                }),
                !strict ==> lenient_from(s, size as nat, 0) == moves@ + lenient_from(
                    s,
                    size as nat,
                    i as int,
                ),
            decreases n - i,
        {
            if byte_is_space(bytes[i]) {
                i += 1;
            } else {
                let mut j: usize = i;
                while j < n && !byte_is_space(bytes[j])
                    invariant
                        i <= j <= n,
                        i < n,
                        n == s.len(),
                        bytes@ == s,
                        !is_space(s[i as int]),
                        token_end(s, i as int) == token_end(s, j as int),
                    decreases n - j,
                {
                    j += 1;
                }
                let tend = j;
                proof {
                    assert(token_end(s, i as int) == tend);
                }
                match parse_move(bytes, i, tend, size) {
                    Ok((cnt, m)) => {
                        let ghost before = moves@;
                        let mut c: usize = 0;
                        while c < cnt
                            invariant
                                c <= cnt,
                                moves@ == before + repeat_move(m, c as nat),
                            decreases cnt - c,
                        {
                            moves.push(m);
                            proof {
                                assert(before + repeat_move(m, (c + 1) as nat) =~= (before
                                    + repeat_move(m, c as nat)).push(m));
                            }
                            c += 1;
                        }
                        proof {
                            let sz = size as nat;
                            let e = tend as int;
                            if strict {
                                match strict_from(s, sz, e) {
                                    Ok(rest) => {
                                        assert(strict_from(s, sz, i as int) == Ok::<
                                            Seq<Move>,
                                            ParseFailure,
                                        >(repeat_move(m, cnt as nat) + rest));
                                        assert(moves@ + rest =~= before + (repeat_move(
                                            m,
                                            cnt as nat,
                                        ) + rest));
                                    },
                                    Err(f) => {
                                        assert(strict_from(s, sz, i as int) == Err::<
                                            Seq<Move>,
                                            ParseFailure,
                                        >(f));
                                    },
                                }
                            } else {
                                assert(lenient_from(s, sz, i as int) == repeat_move(m, cnt as nat)
                                    + lenient_from(s, sz, e));
                                assert(moves@ + lenient_from(s, sz, e) =~= before + (repeat_move(
                                    m,
                                    cnt as nat,
                                ) + lenient_from(s, sz, e)));
                            }
                        }
                        i = tend;
                    },
                    Err(reason) => {
                        if strict {
                            let f = ParseFailure { reason, start: i, end: tend };
                            proof {
                                assert(strict_from(s, size as nat, i as int) == Err::<
                                    Seq<Move>,
                                    ParseFailure,
                                >(f));
                            }
                            return Err(f);
                        }
                        i = tend;
                    },
                }
            }
        }
        proof {
            assert(moves@ + Seq::<Move>::empty() =~= moves@);
        }
        Ok(moves)
    }
}

} // verus!
