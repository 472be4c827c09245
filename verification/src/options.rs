//! The command line.

use vstd::prelude::*;
use vstd::string::*;

use crate::recognizer;
use crate::recognizer::{from_millis, Config, ConfigState};
use crate::text;
use crate::text::{parse_whole_number, reads};

verus! {

/// One argument of the command line.
#[derive(Debug)]
pub struct Argument {
    pub text: String,
    /// The text reads as a number that may have a fraction.
    pub is_number: bool,
}

/// What the command line asks for: a device by path or name, and the settings of the gesture.
#[derive(Debug)]
pub struct Options {
    pub device: Option<String>,
    pub config: Config,
}

/// What to do for the user.
#[derive(Debug)]
pub enum Invocation {
    Help,
    Version,
    Run(Options),
}

/// Why the command line was not understood.
#[derive(Debug)]
pub enum OptionError {
    /// The option came last, without its value.
    MissingValue(String),
    /// The option does not take this value.
    InvalidValue { option: String, value: String },
    UnknownOption(String),
}

/// The meaning of [`Options`].
pub struct OptionsState {
    pub device: Option<Seq<char>>,
    pub config: ConfigState,
}

impl View for Options {
    type V = OptionsState;

    open spec fn view(&self) -> OptionsState {
        OptionsState { device: text::text_of(self.device), config: self.config@ }
    }
}

/// What comes of a command line.
pub enum Outcome {
    Help,
    Version,
    Run(OptionsState),
    MissingValue(Seq<char>),
    InvalidValue(Seq<char>, Seq<char>),
    UnknownOption(Seq<char>),
}

/// What comes of a command line, as a result says it.
pub open spec fn outcome(result: Result<Invocation, OptionError>) -> Outcome {
    match result {
        Ok(Invocation::Help) => Outcome::Help,
        Ok(Invocation::Version) => Outcome::Version,
        Ok(Invocation::Run(options)) => Outcome::Run(options@),
        Err(OptionError::MissingValue(option)) => Outcome::MissingValue(option@),
        Err(OptionError::InvalidValue { option, value }) => Outcome::InvalidValue(
            option@,
            value@,
        ),
        Err(OptionError::UnknownOption(option)) => Outcome::UnknownOption(option@),
    }
}

/// The option that an argument names.
#[derive(Clone, Copy, Debug, PartialEq, Eq, Structural)]
pub enum Switch {
    Help,
    Version,
    Device,
    TapTimeout,
    ScrollMove,
    PrimaryAge,
    PrimaryMove,
    Unknown,
}

/// The option that `text` names.
pub open spec fn named_switch(text: Seq<char>) -> Switch {
    if text == "-h"@ || text == "--help"@ {
        Switch::Help
    } else if text == "-V"@ || text == "--version"@ {
        Switch::Version
    } else if text == "-d"@ || text == "--device"@ {
        Switch::Device
    } else if text == "--tap-timeout-ms"@ {
        Switch::TapTimeout
    } else if text == "--scroll-move-mm"@ {
        Switch::ScrollMove
    } else if text == "--primary-age-ms"@ {
        Switch::PrimaryAge
    } else if text == "--primary-move-mm"@ {
        Switch::PrimaryMove
    } else {
        Switch::Unknown
    }
}

impl OptionsState {
    /// What an empty command line asks for.
    pub open spec fn defaults() -> OptionsState {
        OptionsState { device: None, config: ConfigState::defaults() }
    }

    /// The options with the one that `switch` names set to `value`, if it takes that value.
    pub open spec fn with(self, switch: Switch, value: Argument) -> Option<OptionsState> {
        match switch {
            Switch::Device => Some(OptionsState { device: Some(value.text@), ..self }),
            Switch::TapTimeout => match text::whole_number(value.text@) {
                Some(ms) => Some(
                    OptionsState { config: ConfigState { tap_timeout: recognizer::millis(ms), ..self.config }, ..self },
                ),
                None => None,
            },
            Switch::PrimaryAge => match text::whole_number(value.text@) {
                Some(ms) => Some(
                    OptionsState { config: ConfigState { min_primary_age: recognizer::millis(ms), ..self.config }, ..self },
                ),
                None => None,
            },
            Switch::ScrollMove => if value.is_number {
                Some(
                    OptionsState { config: ConfigState { scroll_move_mm: value.text@, ..self.config }, ..self },
                )
            } else {
                None
            },
            Switch::PrimaryMove => if value.is_number {
                Some(
                    OptionsState { config: ConfigState { primary_move_mm: value.text@, ..self.config }, ..self },
                )
            } else {
                None
            },
            _ => None,
        }
    }

    /// What comes of `args` after what came before them has set the options to `self`: the first
    /// argument that asks for help or the version, or that cannot be understood, decides.
    pub open spec fn understood(self, args: Seq<Argument>) -> Outcome
        decreases args.len(),
    {
        if args.len() == 0 {
            Outcome::Run(self)
        } else {
            let option = args[0].text@;
            match named_switch(option) {
                Switch::Help => Outcome::Help,
                Switch::Version => Outcome::Version,
                Switch::Unknown => Outcome::UnknownOption(option),
                switch => if args.len() == 1 {
                    Outcome::MissingValue(option)
                } else {
                    match self.with(switch, args[1]) {
                        Some(options) => options.understood(args.skip(2)),
                        None => Outcome::InvalidValue(option, args[1].text@),
                    }
                },
            }
        }
    }
}

/// The option that `text` names.
fn switch_of(text: &String) -> (r: Switch)
    ensures
        r == named_switch(text@),
{
    if reads(text, "-h") || reads(text, "--help") {
        Switch::Help
    } else if reads(text, "-V") || reads(text, "--version") {
        Switch::Version
    } else if reads(text, "-d") || reads(text, "--device") {
        Switch::Device
    } else if reads(text, "--tap-timeout-ms") {
        Switch::TapTimeout
    } else if reads(text, "--scroll-move-mm") {
        Switch::ScrollMove
    } else if reads(text, "--primary-age-ms") {
        Switch::PrimaryAge
    } else if reads(text, "--primary-move-mm") {
        Switch::PrimaryMove
    } else {
        Switch::Unknown
    }
}

impl Options {
    /// What an empty command line asks for.
    pub fn new() -> (r: Self)
        ensures
            r@ == OptionsState::defaults(),
    {
        Options { device: None, config: Config::default() }
    }

    /// Sets the option that `switch` names to `value`, and returns whether it takes that value;
    /// if not, nothing is set.
    fn set(&mut self, switch: Switch, value: &Argument) -> (taken: bool)
        ensures
            taken == (old(self)@.with(switch, *value) is Some),
            final(self)@ == (match old(self)@.with(switch, *value) {
                Some(options) => options,
                None => old(self)@,
            }),
    {
        match switch {
            Switch::Device => {
                self.device = Some(value.text.clone());
                true
            },
            Switch::TapTimeout => match parse_whole_number(value.text.as_str()) {
                Some(ms) => {
                    self.config.tap_timeout = from_millis(ms);
                    true
                },
                None => false,
            },
            Switch::PrimaryAge => match parse_whole_number(value.text.as_str()) {
                Some(ms) => {
                    self.config.min_primary_age = from_millis(ms);
                    true
                },
                None => false,
            },
            Switch::ScrollMove => {
                if value.is_number {
                    self.config.scroll_move_mm = value.text.clone();
                }
                value.is_number
            },
            Switch::PrimaryMove => {
                if value.is_number {
                    self.config.primary_move_mm = value.text.clone();
                }
                value.is_number
            },
            _ => false,
        }
    }

    /// Understands the arguments after the name of the program.
    pub fn parse(args: &Vec<Argument>) -> (r: Result<Invocation, OptionError>)
        ensures
            outcome(r) == OptionsState::defaults().understood(args@),
    {
        let mut options: Options = Options::new();
        let mut i: usize = 0;
        proof {
            assert(args@.skip(0) =~= args@);
        }
        while i < args.len()
            invariant
                i <= args.len(),
                OptionsState::defaults().understood(args@) == options@.understood(
                    args@.skip(i as int),
                ),
            decreases args.len() - i,
        {
            let ghost rest = args@.skip(i as int);
            let option: &String = &args[i].text;
            let switch: Switch = switch_of(option);
            match switch {
                Switch::Help => {
                    return Ok(Invocation::Help);
                },
                Switch::Version => {
                    return Ok(Invocation::Version);
                },
                Switch::Unknown => {
                    return Err(OptionError::UnknownOption(option.clone()));
                },
                _ => {},
            }
            if args.len() - i == 1 {
                return Err(OptionError::MissingValue(option.clone()));
            }
            let value: &Argument = &args[i + 1];
            if !options.set(switch, value) {
                return Err(
                    OptionError::InvalidValue { option: option.clone(), value: value.text.clone() },
                );
            }
            proof {
                assert(rest.skip(2) =~= args@.skip(i + 2));
            }
            i = i + 2;
        }
        Ok(Invocation::Run(options))
    }
}

impl OptionError {
    /// The error in words.
    pub open spec fn words(self) -> Seq<char> {
        match self {
            OptionError::MissingValue(option) => "missing value after "@ + option@,
            OptionError::InvalidValue { option, value } => "invalid value for "@ + option@ + ": "@
                + value@,
            OptionError::UnknownOption(option) => "unknown option: "@ + option@,
        }
    }

    /// The error in words.
    pub fn message(&self) -> (r: String)
        ensures
            r@ == self.words(),
    {
        match self {
            OptionError::MissingValue(option) => {
                "missing value after ".to_owned().concat(option.as_str())
            },
            OptionError::InvalidValue { option, value } => {
                "invalid value for ".to_owned().concat(option.as_str()).concat(": ").concat(
                    value.as_str(),
                )
            },
            OptionError::UnknownOption(option) => {
                "unknown option: ".to_owned().concat(option.as_str())
            },
        }
    }
}

/// Arguments that are understood as options take effect in their order: what follows them is
/// understood with those options set, so a later value overrides an earlier one.
pub proof fn law_options_take_effect_in_order(
    options: OptionsState,
    first: Seq<Argument>,
    second: Seq<Argument>,
)
    requires
        options.understood(first) is Run,
    ensures
        options.understood(first + second) == options.understood(first)->Run_0.understood(second),
    decreases first.len(),
{
    if first.len() == 0 {
        assert(first + second =~= second);
    } else {
        let switch = named_switch(first[0].text@);
        let next = options.with(switch, first[1])->0;
        law_options_take_effect_in_order(next, first.skip(2), second);
        assert((first + second).skip(2) =~= first.skip(2) + second);
        assert((first + second)[0] == first[0]);
        assert((first + second)[1] == first[1]);
    }
}

/// The first argument that decides, decides: what follows help, a version request, an unknown
/// option or an invalid value is not looked at.
pub proof fn law_first_decision_stands(
    options: OptionsState,
    first: Seq<Argument>,
    second: Seq<Argument>,
)
    requires
        !(options.understood(first) is Run),
        !(options.understood(first) is MissingValue),
    ensures
        options.understood(first + second) == options.understood(first),
    decreases first.len(),
{
    let switch = named_switch(first[0].text@);
    assert((first + second)[0] == first[0]);
    if first.len() > 1 {
        assert((first + second)[1] == first[1]);
        if switch != Switch::Help && switch != Switch::Version && switch != Switch::Unknown {
            if let Some(next) = options.with(switch, first[1]) {
                law_first_decision_stands(next, first.skip(2), second);
                assert((first + second).skip(2) =~= first.skip(2) + second);
            }
        }
    }
}

} // verus!
