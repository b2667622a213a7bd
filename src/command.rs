//! The options of a `roll` command, decoded once into typed input.
use vstd::prelude::*;

verus! {

/// One option of a command invocation.
pub enum CommandOption {
    Text { name: String, value: String },
    Integer { name: String, value: i64 },
    Boolean { name: String, value: bool },
    Subcommand { name: String },
}

/// What a `roll` command asks for.
pub struct RollInput {
    pub dice: Option<String>,
    pub modifier: Option<i64>,
    pub gm: Option<bool>,
}

/// The value of the last text option called `dice`.
pub open spec fn dice_option(opts: Seq<CommandOption>) -> Option<Seq<char>>
    decreases opts.len(),
{
    if opts.len() == 0 {
        None
    } else {
        match opts.last() {
            CommandOption::Text { name, value } if name@ == "dice"@ => Some(value@),
            _ => dice_option(opts.drop_last()),
        }
    }
}

/// The value of the last integer option called `modifier`.
pub open spec fn modifier_option(opts: Seq<CommandOption>) -> Option<i64>
    decreases opts.len(),
{
    if opts.len() == 0 {
        None
    } else {
        match opts.last() {
            CommandOption::Integer { name, value } if name@ == "modifier"@ => Some(value),
            _ => modifier_option(opts.drop_last()),
        }
    }
}

/// The value of the last boolean option called `gm`.
pub open spec fn gm_option(opts: Seq<CommandOption>) -> Option<bool>
    decreases opts.len(),
{
    if opts.len() == 0 {
        None
    } else {
        match opts.last() {
            CommandOption::Boolean { name, value } if name@ == "gm"@ => Some(value),
            _ => gm_option(opts.drop_last()),
        }
    }
}

fn has_name(name: &String, expected: &str) -> (r: bool)
    ensures
        r == (name@ == expected@),
{
    let e = String::from_str(expected);
    name.eq(&e)
}

impl RollInput {
    /// Picks the options that a roll reads; where a name comes twice the
    /// later one counts, and other options are ignored.
    pub fn from_options(options: &Vec<CommandOption>) -> (r: RollInput)
        ensures
            r.dice.is_some() == dice_option(options@).is_some(),
            r.dice matches Some(d) ==> dice_option(options@) == Some(d@),
            r.modifier == modifier_option(options@),
            r.gm == gm_option(options@),
    {
        let mut dice: Option<String> = None;
        let mut modifier: Option<i64> = None;
        let mut gm: Option<bool> = None;
        let mut i: usize = 0;
        while i < options.len()
            invariant
                i <= options@.len(),
                dice.is_some() == dice_option(options@.take(i as int)).is_some(),
                dice matches Some(d) ==> dice_option(options@.take(i as int)) == Some(d@),
                modifier == modifier_option(options@.take(i as int)),
                gm == gm_option(options@.take(i as int)),
            decreases options@.len() - i,
        {
            assert(options@.take(i + 1).drop_last() =~= options@.take(i as int));
            assert(options@.take(i + 1).last() == options@[i as int]);
            match &options[i] {
                CommandOption::Text { name, value } => {
                    if has_name(name, "dice") {
                        dice = Some(value.clone());
                    }
                },
                CommandOption::Integer { name, value } => {
                    if has_name(name, "modifier") {
                        modifier = Some(*value);
                    }
                },
                CommandOption::Boolean { name, value } => {
                    if has_name(name, "gm") {
                        gm = Some(*value);
                    }
                },
                CommandOption::Subcommand { .. } => {},
            }
            i = i + 1;
        }
        assert(options@.take(options@.len() as int) =~= options@);
        RollInput { dice, modifier, gm }
    }
}

} // verus!
