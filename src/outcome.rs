//! The result of a roll and its text.
use vstd::prelude::*;
use vstd::string::*;
use crate::decimal::{decimal_of, push_decimal};

verus! {

/// The dice as they fell, in order, with the modifier and the total.
pub struct RollOutcome {
    pub samples: Vec<u16>,
    pub modifier: u16,
    pub total: u32,
    pub ephemeral: bool,
}

pub open spec fn sum(s: Seq<u16>) -> nat
    decreases s.len(),
{
    if s.len() == 0 {
        0
    } else {
        sum(s.drop_last()) + s.last() as nat
    }
}

/// The dice joined by ` + `.
pub open spec fn joined(s: Seq<u16>) -> Seq<char>
    decreases s.len(),
{
    if s.len() == 0 {
        Seq::empty()
    } else if s.len() == 1 {
        decimal_of(s[0] as nat)
    } else {
        joined(s.drop_last()) + " + "@ + decimal_of(s.last() as nat)
    }
}

/// The text of a roll of `samples` with `modifier` added.
pub open spec fn description(samples: Seq<u16>, modifier: nat) -> Seq<char> {
    let total = sum(samples) + modifier;
    if samples.len() == 1 {
        if modifier != 0 {
            "Your result is **"@ + decimal_of(samples[0] as nat) + " *+ "@ + decimal_of(modifier)
                + "* = "@ + decimal_of(total) + "**"@
        } else {
            "Your result is **"@ + decimal_of(samples[0] as nat) + "**"@
        }
    } else if modifier != 0 {
        "Your results are **("@ + joined(samples) + ") *+ "@ + decimal_of(modifier) + "* = "@
            + decimal_of(total) + "**"@
    } else {
        "Your results are **("@ + joined(samples) + ") = "@ + decimal_of(total) + "**"@
    }
}

impl RollOutcome {
    /// At least one die, no more than sixteen, and the total adds up.
    pub open spec fn wf(&self) -> bool {
        &&& 1 <= self.samples@.len() <= 16
        &&& self.total == sum(self.samples@) + self.modifier
    }

    /// The text shown for this outcome.
    pub fn describe(&self) -> (r: String)
        requires
            self.wf(),
        ensures
            r@ == description(self.samples@, self.modifier as nat),
    {
        let mut out = String::new();
        if self.samples.len() == 1 {
            out.append("Your result is **");
            push_decimal(&mut out, self.samples[0] as u128);
            if self.modifier != 0 {
                out.append(" *+ ");
                push_decimal(&mut out, self.modifier as u128);
                out.append("* = ");
                push_decimal(&mut out, self.total as u128);
            }
            out.append("**");
        } else {
            out.append("Your results are **(");
            let mut i: usize = 0;
            while i < self.samples.len()
                invariant
                    i <= self.samples@.len(),
                    self.samples@.len() >= 2,
                    out@ == "Your results are **("@ + joined(self.samples@.take(i as int)),
                decreases self.samples@.len() - i,
            {
                let ghost before = out@;
                if i > 0 {
                    out.append(" + ");
                }
                push_decimal(&mut out, self.samples[i] as u128);
                proof {
                    let t = self.samples@.take(i + 1);
                    assert(t.drop_last() =~= self.samples@.take(i as int));
                    assert(t.last() == self.samples@[i as int]);
                    if i == 0 {
                        assert(t.len() == 1);
                        assert(joined(self.samples@.take(0)) =~= Seq::<char>::empty());
                    }
                    assert(out@ =~= "Your results are **("@ + joined(t));
                }
                i = i + 1;
            }
            assert(self.samples@.take(self.samples@.len() as int) =~= self.samples@);
            if self.modifier != 0 {
                out.append(") *+ ");
                push_decimal(&mut out, self.modifier as u128);
                out.append("* = ");
            } else {
                out.append(") = ");
            }
            push_decimal(&mut out, self.total as u128);
            out.append("**");
        }
        proof {
            if self.samples@.len() == 1 {
                assert(self.samples@.drop_last() =~= Seq::<u16>::empty());
                assert(sum(self.samples@.drop_last()) == 0);
                assert(sum(self.samples@) == self.samples@[0]);
            }
        }
        assert(out@ =~= description(self.samples@, self.modifier as nat));
        out
    }
}

} // verus!
