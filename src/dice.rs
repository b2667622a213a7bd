//! Dice notation: `[count]d<faces>` (the marker may also be `D`), where
//! count and faces are ASCII decimal digits and an absent count means one die.
use vstd::prelude::*;
use vstd::string::*;
use crate::decimal::{all_digits, decimal_of, digits_value, is_digit, lemma_decimal_of_digits};

verus! {

/// Why a roll request was refused.
#[derive(Debug, Clone, Copy, PartialEq, Eq, Structural)]
pub enum RollError {
    CountBelowMinimum,
    CountAboveMaximum,
    FacesBelowMinimum,
    FacesAboveMaximum,
    MalformedDice,
    ModifierBelowMinimum,
    ModifierAboveMaximum,
}

/// The text shown to the requester for each error.
pub open spec fn error_text(e: RollError) -> Seq<char> {
    match e {
        RollError::CountBelowMinimum => "You can't roll less than one die!"@,
        RollError::CountAboveMaximum => "You can't roll more than eight dice!"@,
        RollError::FacesBelowMinimum => "Your dice can't have less than four faces!"@,
        RollError::FacesAboveMaximum => "Your dice can't have more than 120 faces!"@,
        RollError::MalformedDice => "Please enter the dice you want to roll, e. g. `1d20` or `4d8`!"@,
        RollError::ModifierBelowMinimum => "Your modifier can't be less than one!"@,
        RollError::ModifierAboveMaximum => "Your modifier can't be more than eight!"@,
    }
}

impl RollError {
    /// The text shown to the requester.
    pub fn message(&self) -> (r: String)
        ensures
            r@ == error_text(*self),
    {
        let text = match self {
            RollError::CountBelowMinimum => "You can't roll less than one die!",
            RollError::CountAboveMaximum => "You can't roll more than eight dice!",
            RollError::FacesBelowMinimum => "Your dice can't have less than four faces!",
            RollError::FacesAboveMaximum => "Your dice can't have more than 120 faces!",
            RollError::MalformedDice => "Please enter the dice you want to roll, e. g. `1d20` or `4d8`!",
            RollError::ModifierBelowMinimum => "Your modifier can't be less than one!",
            RollError::ModifierAboveMaximum => "Your modifier can't be more than eight!",
        };
        String::from_str(text)
    }
}

pub const MIN_COUNT: u32 = 1;

pub const MAX_COUNT: u32 = 8;

pub const MIN_FACES: u32 = 4;

pub const MAX_FACES: u32 = 120;

/// Values above this all count the same: too large.
pub const VALUE_CAP: u32 = 1000;

pub open spec fn is_marker(c: char) -> bool {
    c == 'd' || c == 'D'
}

/// `s` reads as notation with its marker at `p`.
pub open spec fn splits_at(s: Seq<char>, p: int) -> bool {
    &&& 0 <= p
    &&& p + 1 < s.len()
    &&& is_marker(s[p])
    &&& all_digits(s.take(p))
    &&& all_digits(s.skip(p + 1))
}

pub open spec fn is_notation(s: Seq<char>) -> bool {
    exists|p: int| splits_at(s, p)
}

pub open spec fn marker_at(s: Seq<char>) -> int {
    choose|p: int| splits_at(s, p)
}

/// The number of dice that notation `s` asks for.
pub open spec fn notation_count(s: Seq<char>) -> nat {
    if marker_at(s) == 0 {
        1
    } else {
        digits_value(s.take(marker_at(s)))
    }
}

/// The number of faces that notation `s` asks for.
pub open spec fn notation_faces(s: Seq<char>) -> nat {
    digits_value(s.skip(marker_at(s) + 1))
}

/// What reading `s` as dice notation gives: (count, faces), or the first
/// rule that it breaks.
pub open spec fn dice_result(s: Seq<char>) -> Result<(nat, nat), RollError> {
    if !is_notation(s) {
        Err(RollError::MalformedDice)
    } else if notation_count(s) < MIN_COUNT {
        Err(RollError::CountBelowMinimum)
    } else if notation_count(s) > MAX_COUNT {
        Err(RollError::CountAboveMaximum)
    } else if notation_faces(s) < MIN_FACES {
        Err(RollError::FacesBelowMinimum)
    } else if notation_faces(s) > MAX_FACES {
        Err(RollError::FacesAboveMaximum)
    } else {
        Ok((notation_count(s), notation_faces(s)))
    }
}

/// The marker of notation is unique.
pub proof fn lemma_marker_unique(s: Seq<char>, p: int, q: int)
    requires
        splits_at(s, p),
        splits_at(s, q),
    ensures
        p == q,
{
    if p < q {
        assert(s.take(q)[p] == s[p]);
    } else if q < p {
        assert(s.take(p)[q] == s[q]);
    }
}

pub open spec fn min_cap(v: nat) -> nat {
    if v < VALUE_CAP {
        v
    } else {
        VALUE_CAP as nat
    }
}

/// The number that the digits `s[from..to]` denote, or the cap where it is larger.
fn read_capped(s: &str, from: usize, to: usize) -> (r: u32)
    requires
        from <= to <= s@.len(),
        all_digits(s@.subrange(from as int, to as int)),
    ensures
        r == min_cap(digits_value(s@.subrange(from as int, to as int))),
{
    let mut acc: u32 = 0;
    let mut i: usize = from;
    while i < to
        invariant
            from <= i <= to <= s@.len(),
            all_digits(s@.subrange(from as int, to as int)),
            acc == min_cap(digits_value(s@.subrange(from as int, i as int))),
        decreases to - i,
    {
        let c = s.get_char(i);
        assert(s@.subrange(from as int, to as int)[i - from] == c);
        let d = c as u32 - '0' as u32;
        assert(s@.subrange(from as int, i + 1).drop_last() =~= s@.subrange(from as int, i as int));
        if acc < VALUE_CAP {
            let v = acc * 10 + d;
            acc = if v < VALUE_CAP {
                v
            } else {
                VALUE_CAP
            };
        }
        i = i + 1;
    }
    acc
}

fn digit_at(s: &str, i: usize) -> (r: bool)
    requires
        i < s@.len(),
    ensures
        r == is_digit(s@[i as int]),
{
    let c = s.get_char(i);
    '0' <= c && c <= '9'
}

/// Reads dice notation: the number of dice and of faces, or the first rule
/// that the text breaks.
pub fn parse_dice(s: &str) -> (r: Result<(u16, u16), RollError>)
    ensures
        match r {
            Ok((count, faces)) => dice_result(s@) == Ok::<(nat, nat), RollError>(
                (count as nat, faces as nat),
            ),
            Err(e) => dice_result(s@) == Err::<(nat, nat), RollError>(e),
        },
{
    let n = s.unicode_len();
    let mut p: usize = 0;
    while p < n && digit_at(s, p)
        invariant
            n == s@.len(),
            p <= n,
            all_digits(s@.take(p as int)),
        decreases n - p,
    {
        assert(s@.take(p + 1) =~= s@.take(p as int).push(s@[p as int]));
        p = p + 1;
    }
    if p >= n || n - p < 2 || !(s.get_char(p) == 'd' || s.get_char(p) == 'D') {
        proof {
            assert forall|q: int| !splits_at(s@, q) by {
                if splits_at(s@, q) {
                    if q < p {
                        assert(s@.take(p as int)[q] == s@[q]);
                    } else if q > p {
                        assert(s@.take(q)[p as int] == s@[p as int]);
                    }
                }
            }
        }
        return Err(RollError::MalformedDice);
    }
    let mut k: usize = p + 1;
    while k < n
        invariant
            n == s@.len(),
            p + 1 <= k <= n,
            is_marker(s@[p as int]),
            all_digits(s@.take(p as int)),
            all_digits(s@.subrange(p + 1, k as int)),
        decreases n - k,
    {
        let c = s.get_char(k);
        if !('0' <= c && c <= '9') {
            proof {
                assert forall|q: int| !splits_at(s@, q) by {
                    if splits_at(s@, q) {
                        if q < p {
                            assert(s@.take(p as int)[q] == s@[q]);
                        } else if q > p {
                            assert(s@.take(q)[p as int] == s@[p as int]);
                        } else {
                            assert(s@.skip(p + 1)[k - p - 1] == s@[k as int]);
                        }
                    }
                }
            }
            return Err(RollError::MalformedDice);
        }
        assert(s@.subrange(p + 1, k + 1) =~= s@.subrange(p + 1, k as int).push(c));
        k = k + 1;
    }
    proof {
        assert(s@.subrange(p + 1, n as int) =~= s@.skip(p + 1));
        assert(s@.subrange(0, p as int) =~= s@.take(p as int));
        assert(splits_at(s@, p as int));
        lemma_marker_unique(s@, p as int, marker_at(s@));
    }
    let count: u32 = if p == 0 {
        1
    } else {
        read_capped(s, 0, p)
    };
    let faces = read_capped(s, p + 1, n);
    if count < MIN_COUNT {
        return Err(RollError::CountBelowMinimum);
    }
    if count > MAX_COUNT {
        return Err(RollError::CountAboveMaximum);
    }
    if faces < MIN_FACES {
        return Err(RollError::FacesBelowMinimum);
    }
    if faces > MAX_FACES {
        return Err(RollError::FacesAboveMaximum);
    }
    Ok((count as u16, faces as u16))
}

/// Notation that is accepted reads back the same from its canonical form
/// `{count}d{faces}`.
pub proof fn lemma_canonical_reparse(s: Seq<char>)
    requires
        dice_result(s) is Ok,
    ensures
        ({
            let (count, faces) = dice_result(s)->Ok_0;
            dice_result(decimal_of(count) + seq!['d'] + decimal_of(faces)) == dice_result(s)
        }),
{
    let (count, faces) = dice_result(s)->Ok_0;
    let dc = decimal_of(count);
    let df = decimal_of(faces);
    let t = dc + seq!['d'] + df;
    lemma_decimal_of_digits(count);
    lemma_decimal_of_digits(faces);
    let p = dc.len() as int;
    assert(t.take(p) =~= dc);
    assert(t.skip(p + 1) =~= df);
    assert(t[p] == 'd');
    assert(splits_at(t, p));
    lemma_marker_unique(t, p, marker_at(t));
}

} // verus!
