//! A dice roll's parameters and their reroll token.
//!
//! The token is the decimal text of one unsigned integer whose bit fields
//! (bit 0 lowest) are:
//!
//! | bits    | field                       |
//! |---------|-----------------------------|
//! | 80..16  | requester id (64 bits)      |
//! | 15..9   | faces - 1 (7 bits)          |
//! | 8..5    | dice count - 1 (4 bits)     |
//! | 4..1    | modifier (4 bits)           |
//! | 0       | GM flag                     |
//!
//! The low 16 bits alone are the anonymous form of the same layout.
//!
//! A command accepts a modifier from 1 to 8 (0 when none is given); its four
//! bits in the token would hold up to 15, and a token is read back as it is.
use vstd::prelude::*;
use rand::Rng;
use crate::command::{dice_option, gm_option, modifier_option, CommandOption, RollInput};
use crate::outcome::{description, sum, RollOutcome};
use crate::dice::{dice_result, parse_dice, RollError};
use crate::decimal::{all_digits, decimal_of, decimal_string, digits_value, lemma_decimal_of_digits, parse_u128};

verus! {

/// The packed integer of a roll's fields.
pub open spec fn pack(id: nat, faces: nat, count: nat, modifier: nat, gm: bool) -> nat {
    (id * 0x10000 + (faces - 1) * 0x200 + (count - 1) * 0x20 + modifier * 2 + if gm {
        1int
    } else {
        0int
    }) as nat
}

pub open spec fn unpack_id(n: nat) -> nat {
    (n / 0x10000) % 0x1_0000_0000_0000_0000
}

pub open spec fn unpack_faces(n: nat) -> nat {
    (n / 0x200) % 0x80 + 1
}

pub open spec fn unpack_count(n: nat) -> nat {
    (n / 0x20) % 0x10 + 1
}

pub open spec fn unpack_modifier(n: nat) -> nat {
    (n / 2) % 0x10
}

pub open spec fn unpack_gm(n: nat) -> bool {
    n % 2 == 1
}

pub const MIN_MODIFIER: i64 = 1;

pub const MAX_MODIFIER: i64 = 8;

/// What a roll request gives: (count, faces, modifier), or the first rule
/// that it breaks. Dice are checked before the modifier.
pub open spec fn request_result(dice: Option<Seq<char>>, modifier: Option<i64>) -> Result<
    (nat, nat, nat),
    RollError,
> {
    match dice {
        None => Err(RollError::MalformedDice),
        Some(s) => match dice_result(s) {
            Err(e) => Err(e),
            Ok((count, faces)) => match modifier {
                None => Ok((count, faces, 0nat)),
                Some(m) => if m < MIN_MODIFIER {
                    Err(RollError::ModifierBelowMinimum)
                } else if m > MAX_MODIFIER {
                    Err(RollError::ModifierAboveMaximum)
                } else {
                    Ok((count, faces, m as nat))
                },
            },
        },
    }
}

/// The parameters of one roll, and who asked for it.
pub struct Roll {
    id: u64,
    die: u16,
    count: u16,
    modifier: u16,
    gm: u8,
}

impl Roll {
    /// The requester's id.
    pub closed spec fn requester(&self) -> nat {
        self.id as nat
    }

    /// Faces of each die.
    pub closed spec fn faces(&self) -> nat {
        self.die as nat
    }

    /// Number of dice.
    pub closed spec fn dice(&self) -> nat {
        self.count as nat
    }

    /// Added to the sum of the dice.
    pub closed spec fn bonus(&self) -> nat {
        self.modifier as nat
    }

    pub closed spec fn gm_bit(&self) -> nat {
        self.gm as nat
    }

    /// Whether the result is shown to the requester alone.
    pub open spec fn gm_only(&self) -> bool {
        self.gm_bit() == 1
    }

    /// Every field fits its place in the token.
    pub open spec fn wf(&self) -> bool {
        &&& 1 <= self.faces() <= 128
        &&& 1 <= self.dice() <= 16
        &&& self.bonus() <= 15
        &&& self.gm_bit() <= 1
        &&& self.requester() < 0x1_0000_0000_0000_0000
    }

    /// The packed integer that stands for this roll.
    pub open spec fn packed(&self) -> nat {
        pack(self.requester(), self.faces(), self.dice(), self.bonus(), self.gm_only())
    }

    /// Two well-formed rolls with the same parameters are the same value.
    pub proof fn lemma_fields_determine(a: Roll, b: Roll)
        requires
            a.wf(),
            b.wf(),
            a.requester() == b.requester(),
            a.faces() == b.faces(),
            a.dice() == b.dice(),
            a.bonus() == b.bonus(),
            a.gm_only() == b.gm_only(),
        ensures
            a == b,
    {
    }

    /// A roll for requester `id` from typed command input.
    pub fn from_input(id: u64, input: &RollInput) -> (r: Result<Roll, RollError>)
        ensures
            ({
                let dice = match input.dice {
                    Some(d) => Some(d@),
                    None => None,
                };
                match r {
                    Ok(roll) => {
                        &&& roll.wf()
                        &&& request_result(dice, input.modifier) == Ok::<
                            (nat, nat, nat),
                            RollError,
                        >((roll.dice(), roll.faces(), roll.bonus()))
                        &&& roll.requester() == id
                        &&& roll.gm_only() == (input.gm == Some(true))
                    },
                    Err(e) => request_result(dice, input.modifier) == Err::<
                        (nat, nat, nat),
                        RollError,
                    >(e),
                }
            }),
    {
        let (count, faces) = match &input.dice {
            None => {
                return Err(RollError::MalformedDice);
            },
            Some(d) => match parse_dice(d.as_str()) {
                Err(e) => {
                    return Err(e);
                },
                Ok(cf) => cf,
            },
        };
        let modifier: u16 = match input.modifier {
            None => 0,
            Some(m) => {
                if m < MIN_MODIFIER {
                    return Err(RollError::ModifierBelowMinimum);
                }
                if m > MAX_MODIFIER {
                    return Err(RollError::ModifierAboveMaximum);
                }
                m as u16
            },
        };
        let gm: u8 = match input.gm {
            Some(true) => 1,
            _ => 0,
        };
        Ok(Roll { id, die: faces, count, modifier, gm })
    }

    /// A roll for requester `id` from the options of a `roll` command.
    pub fn from_command(id: u64, options: &Vec<CommandOption>) -> (r: Result<Roll, RollError>)
        ensures
            match r {
                Ok(roll) => {
                    &&& roll.wf()
                    &&& request_result(dice_option(options@), modifier_option(options@)) == Ok::<
                        (nat, nat, nat),
                        RollError,
                    >((roll.dice(), roll.faces(), roll.bonus()))
                    &&& roll.requester() == id
                    &&& roll.gm_only() == (gm_option(options@) == Some(true))
                },
                Err(e) => request_result(dice_option(options@), modifier_option(options@)) == Err::<
                    (nat, nat, nat),
                    RollError,
                >(e),
            },
    {
        let input = RollInput::from_options(options);
        Roll::from_input(id, &input)
    }

    /// The reroll token: the decimal text of the packed integer.
    pub fn to_custom_id(&self) -> (r: String)
        requires
            self.wf(),
        ensures
            r@ == decimal_of(self.packed()),
    {
        let id = self.id as u128;
        let f = (self.die - 1) as u128;
        let c = (self.count - 1) as u128;
        let m = self.modifier as u128;
        let g = self.gm as u128;
        proof {
            lemma_field_bits(id, f, c, m);
        }
        let mut custom_id: u128 = id << 16;
        custom_id = custom_id + ((f & 127) << 9);
        custom_id = custom_id + ((c & 15) << 5);
        custom_id = custom_id + ((m & 15) << 1);
        custom_id = custom_id + g;
        decimal_string(custom_id)
    }

    /// Reads a reroll token. `None` where the text is not the decimal form of
    /// a `u128`; otherwise each field is taken from its bits, without any
    /// further check.
    pub fn from_custom_id(custom_id: String) -> (r: Option<Roll>)
        ensures
            r.is_some() <==> (custom_id@.len() > 0 && all_digits(custom_id@) && digits_value(
                custom_id@,
            ) <= u128::MAX),
            r matches Some(roll) ==> {
                let n = digits_value(custom_id@);
                &&& roll.wf()
                &&& roll.requester() == unpack_id(n)
                &&& roll.faces() == unpack_faces(n)
                &&& roll.dice() == unpack_count(n)
                &&& roll.bonus() == unpack_modifier(n)
                &&& roll.gm_only() == unpack_gm(n)
            },
    {
        match parse_u128(custom_id.as_str()) {
            None => None,
            Some(n) => {
                proof {
                    lemma_decode_bits(n);
                }
                Some(
                    Roll {
                        id: (n >> 16) as u64,
                        die: (((n >> 9) & 127) + 1) as u16,
                        count: (((n >> 5) & 15) + 1) as u16,
                        modifier: ((n >> 1) & 15) as u16,
                        gm: (n & 1) as u8,
                    },
                )
            },
        }
    }

    /// `samples` could have come from rolling these dice.
    pub open spec fn fits(&self, samples: Seq<u16>) -> bool {
        &&& samples.len() == self.dice()
        &&& forall|i: int| 0 <= i < samples.len() ==> 1 <= #[trigger] samples[i] <= self.faces()
    }

    fn tally(&self, samples: Vec<u16>) -> (r: RollOutcome)
        requires
            self.wf(),
            self.fits(samples@),
        ensures
            r.wf(),
            r.samples@ == samples@,
            r.modifier == self.bonus(),
            r.total == sum(samples@) + self.bonus(),
            r.ephemeral == self.gm_only(),
    {
        let mut total: u32 = 0;
        let mut i: usize = 0;
        while i < samples.len()
            invariant
                self.wf(),
                self.fits(samples@),
                i <= samples@.len(),
                total == sum(samples@.take(i as int)),
                total <= i * 128,
            decreases samples@.len() - i,
        {
            assert(samples@.take(i + 1).drop_last() =~= samples@.take(i as int));
            assert(1 <= samples@[i as int] <= self.faces());
            total = total + samples[i] as u32;
            i = i + 1;
        }
        assert(samples@.take(samples@.len() as int) =~= samples@);
        RollOutcome { samples, modifier: self.modifier, total: total + self.modifier as u32, ephemeral: self.gm != 0 }
    }

    /// The outcome of these dice falling as `samples`; `None` where the
    /// number of samples differs from the number of dice or one lies outside
    /// `1..=faces`.
    pub fn outcome(&self, samples: Vec<u16>) -> (r: Option<RollOutcome>)
        requires
            self.wf(),
        ensures
            r.is_some() == self.fits(samples@),
            r matches Some(o) ==> {
                &&& o.wf()
                &&& o.samples@ == samples@
                &&& o.modifier == self.bonus()
                &&& o.total == sum(samples@) + self.bonus()
                &&& o.ephemeral == self.gm_only()
            },
    {
        if samples.len() != self.count as usize {
            return None;
        }
        let mut i: usize = 0;
        while i < samples.len()
            invariant
                i <= samples@.len(),
                forall|j: int| 0 <= j < i ==> 1 <= #[trigger] samples@[j] <= self.faces(),
            decreases samples@.len() - i,
        {
            if samples[i] < 1 || samples[i] > self.die {
                return None;
            }
            i = i + 1;
        }
        Some(self.tally(samples))
    }

    /// Rolls the dice: each one falls on a value in `1..=faces`, and the
    /// total is their sum plus the modifier.
    pub fn roll(&self) -> (r: RollOutcome)
        requires
            self.wf(),
        ensures
            self.fits(r.samples@),
            r.wf(),
            r.modifier == self.bonus(),
            r.total == sum(r.samples@) + self.bonus(),
            r.ephemeral == self.gm_only(),
    {
        let mut samples: Vec<u16> = Vec::new();
        let mut i: u16 = 0;
        while i < self.count
            invariant
                self.wf(),
                i <= self.count,
                samples@.len() == i,
                forall|j: int| 0 <= j < i ==> 1 <= #[trigger] samples@[j] <= self.faces(),
            decreases self.count - i,
        {
            let v = random_in(1, self.die + 1);
            samples.push(v);
            i = i + 1;
        }
        self.tally(samples)
    }

    /// Rolls the dice and gives the text of the result.
    pub fn to_string(&self) -> (r: String)
        requires
            self.wf(),
        ensures
            exists|samples: Seq<u16>| self.fits(samples) && r@ == description(samples, self.bonus()),
    {
        let o = self.roll();
        let text = o.describe();
        assert(self.fits(o.samples@) && text@ == description(o.samples@, self.bonus()));
        text
    }

    /// Whether only the requester sees the result.
    pub fn ephemeral(&self) -> (r: bool)
        ensures
            r == (self.gm_bit() != 0),
    {
        self.gm != 0
    }

    /// Whether `id` is the requester.
    pub fn is_from(&self, id: u64) -> (r: bool)
        ensures
            r == (self.requester() == id),
    {
        self.id == id
    }
}

/// Reading a packed integer back gives each field that was packed into it,
/// for every requester id, faces in 4..=120, 1 to 8 dice, a modifier that
/// fits its four bits and either GM flag; and its decimal text reads back as
/// that integer.
pub proof fn lemma_token_round_trip(id: u64, faces: u16, count: u16, modifier: u16, gm: bool)
    requires
        4 <= faces <= 120,
        1 <= count <= 8,
        modifier <= 15,
    ensures
        ({
            let n = pack(id as nat, faces as nat, count as nat, modifier as nat, gm);
            &&& n <= u128::MAX
            &&& decimal_of(n).len() > 0
            &&& all_digits(decimal_of(n))
            &&& digits_value(decimal_of(n)) == n
            &&& unpack_id(n) == id
            &&& unpack_faces(n) == faces
            &&& unpack_count(n) == count
            &&& unpack_modifier(n) == modifier
            &&& unpack_gm(n) == gm
        }),
{
    let i = id as u128;
    let f = (faces - 1) as u128;
    let c = (count - 1) as u128;
    let m = modifier as u128;
    let g: u128 = if gm {
        1
    } else {
        0
    };
    let n: u128 = (i * 0x10000 + f * 0x200 + c * 0x20 + m * 2 + g) as u128;
    assert(i * 0x10000 + f * 0x200 + c * 0x20 + m * 2 + g <= u128::MAX);
    assert({
        &&& (n / 0x10000) % 0x1_0000_0000_0000_0000 == i
        &&& (n / 0x200) % 0x80 == f
        &&& (n / 0x20) % 0x10 == c
        &&& (n / 2) % 0x10 == m
        &&& n % 2 == g
    }) by (bit_vector)
        requires
            n == i * 0x10000 + f * 0x200 + c * 0x20 + m * 2 + g,
            i < 0x1_0000_0000_0000_0000,
            f < 128,
            c < 16,
            m < 16,
            g < 2,
    ;
    assert(n as nat == pack(id as nat, faces as nat, count as nat, modifier as nat, gm));
    lemma_decimal_of_digits(n as nat);
}

/// A roll read back from the token of a well-formed roll (within the bounds
/// that a command accepts) is that same roll.
pub proof fn lemma_roll_round_trip(r: Roll, back: Roll)
    requires
        r.wf(),
        4 <= r.faces() <= 120,
        1 <= r.dice() <= 8,
        back.wf(),
        ({
            let n = digits_value(decimal_of(r.packed()));
            &&& back.requester() == unpack_id(n)
            &&& back.faces() == unpack_faces(n)
            &&& back.dice() == unpack_count(n)
            &&& back.bonus() == unpack_modifier(n)
            &&& back.gm_only() == unpack_gm(n)
        }),
    ensures
        back == r,
{
    lemma_token_round_trip(r.id, r.die, r.count, r.modifier, r.gm == 1);
    Roll::lemma_fields_determine(r, back);
}

/// The anonymous form: with no requester id the packed integer fits in 16
/// bits, reads back field by field, and is the low 16 bits of the packed
/// integer of any requester.
pub proof fn lemma_anonymous_round_trip(id: u64, faces: u16, count: u16, modifier: u16, gm: bool)
    requires
        4 <= faces <= 120,
        1 <= count <= 8,
        modifier <= 15,
    ensures
        ({
            let a = pack(0, faces as nat, count as nat, modifier as nat, gm);
            &&& a < 0x10000
            &&& pack(id as nat, faces as nat, count as nat, modifier as nat, gm) % 0x10000 == a
            &&& unpack_faces(a) == faces
            &&& unpack_count(a) == count
            &&& unpack_modifier(a) == modifier
            &&& unpack_gm(a) == gm
        }),
{
    lemma_token_round_trip(0, faces, count, modifier, gm);
    let a = pack(0, faces as nat, count as nat, modifier as nat, gm);
    let b = pack(id as nat, faces as nat, count as nat, modifier as nat, gm);
    assert(b == id * 0x10000 + a);
    assert((id * 0x10000 + a) % 0x10000 == a) by (nonlinear_arith)
        requires
            a < 0x10000,
    ;
}

/// Relies on rand's `thread_rng` and `Rng::gen_range`: a value drawn from
/// `low..high`. `gen_range` panics on an empty range, which `requires` rules out.
#[verifier::external_body]
fn random_in(low: u16, high: u16) -> (r: u16)
    requires
        low < high,
    ensures
        low <= r < high,
{
    rand::thread_rng().gen_range(low..high)
}

proof fn lemma_field_bits(id: u128, f: u128, c: u128, m: u128)
    requires
        id < 0x1_0000_0000_0000_0000,
        f < 128,
        c < 16,
        m < 16,
    ensures
        id << 16 == id * 0x10000,
        (f & 127) << 9 == f * 0x200,
        (c & 15) << 5 == c * 0x20,
        (m & 15) << 1 == m * 2,
{
    assert(id << 16 == id * 0x10000) by (bit_vector)
        requires
            id < 0x1_0000_0000_0000_0000,
    ;
    assert((f & 127) << 9 == f * 0x200) by (bit_vector)
        requires
            f < 128,
    ;
    assert((c & 15) << 5 == c * 0x20) by (bit_vector)
        requires
            c < 16,
    ;
    assert((m & 15) << 1 == m * 2) by (bit_vector)
        requires
            m < 16,
    ;
}

proof fn lemma_decode_bits(n: u128)
    ensures
        (n >> 16) as u64 as nat == unpack_id(n as nat),
        ((n >> 9) & 127) + 1 == unpack_faces(n as nat),
        ((n >> 5) & 15) + 1 == unpack_count(n as nat),
        (n >> 1) & 15 == unpack_modifier(n as nat),
        n & 1 == n % 2,
        (n >> 9) & 127 < 128,
        (n >> 5) & 15 < 16,
        (n >> 1) & 15 < 16,
        n & 1 < 2,
{
    assert((n >> 16) as u64 == (n / 0x10000) % 0x1_0000_0000_0000_0000) by (bit_vector);
    assert((n >> 9) & 127 == (n / 0x200) % 0x80) by (bit_vector);
    assert((n >> 5) & 15 == (n / 0x20) % 0x10) by (bit_vector);
    assert((n >> 1) & 15 == (n / 2) % 0x10) by (bit_vector);
    assert(n & 1 == n % 2) by (bit_vector);
    assert((n >> 9) & 127 < 128) by (bit_vector);
    assert((n >> 5) & 15 < 16) by (bit_vector);
    assert((n >> 1) & 15 < 16) by (bit_vector);
    assert(n & 1 < 2) by (bit_vector);
}

} // verus!
