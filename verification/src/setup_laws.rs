//! What the command line asks for and which device is chosen, over the texts and codes themselves.

use vstd::prelude::*;

use crate::attributes;
use crate::device;
use crate::device::Candidate;
use crate::options::{outcome, Argument, Invocation, OptionError, Options, OptionsState, Outcome};
use crate::recognizer::{ConfigState, Nanos};
use crate::text;

verus! {

/// A text ends in a suffix exactly if it is something followed by the suffix.
pub proof fn law_suffix_is_what_comes_last(whole: Seq<char>, front: Seq<char>, suffix: Seq<char>)
    ensures
        text::has_suffix(front + suffix, suffix),
        text::has_suffix(whole, suffix) <==> exists|start: Seq<char>|
            whole == #[trigger] (start + suffix),
{
    assert((front + suffix).skip(front.len() as int) =~= suffix);
    if text::has_suffix(whole, suffix) {
        let start = whole.take(whole.len() - suffix.len());
        assert(whole =~= start + suffix);
    }
    if exists|start: Seq<char>| whole == #[trigger] (start + suffix) {
        let start = choose|start: Seq<char>| whole == #[trigger] (start + suffix);
        assert(whole.skip(start.len() as int) =~= suffix);
    }
}

/// A single digit is the number that it writes.
pub proof fn law_digit_is_a_number(digit: char)
    requires
        '0' as u32 <= digit as u32 <= '9' as u32,
    ensures
        text::whole_number(seq![digit]) == Some((digit as u32 - '0' as u32) as u64),
        digit == '0' ==> text::whole_number(seq![digit]) == Some(0u64),
        digit == '9' ==> text::whole_number(seq![digit]) == Some(9u64),
{
    reveal_with_fuel(text::decimal_value, 2);
    assert(seq![digit].drop_last() =~= Seq::empty());
    assert(text::unsigned_digits(seq![digit]) == seq![digit]);
}

/// One more digit makes ten times the number and the digit, as long as that fits into sixty-four
/// bits; a number that does not fit is none, and neither is a longer one.
pub proof fn law_one_more_digit(number: Seq<char>, digit: char)
    requires
        number.len() > 0,
        forall|i: int|
            0 <= i < number.len() ==> '0' as u32 <= (#[trigger] number[i]) as u32 <= '9' as u32,
        '0' as u32 <= digit as u32 <= '9' as u32,
    ensures
        match text::whole_number(number) {
            Some(n) => if n * 10 + (digit as u32 - '0' as u32) <= 0xffff_ffff_ffff_ffff {
                text::whole_number(number.push(digit)) matches Some(m) && m == n * 10 + (
                digit as u32 - '0' as u32)
            } else {
                text::whole_number(number.push(digit)) is None
            },
            None => text::whole_number(number.push(digit)) is None,
        },
{
    let longer = number.push(digit);
    assert(longer.drop_last() =~= number);
    assert(number[0] != '+');
    assert(longer[0] == number[0]);
    assert forall|i: int| 0 <= i < number.len() implies text::is_digit(#[trigger] number[i]) by {
        assert('0' as u32 <= number[i] as u32 <= '9' as u32);
    }
    assert forall|i: int| 0 <= i < longer.len() implies text::is_digit(#[trigger] longer[i]) by {
        if i < number.len() {
            assert(longer[i] == number[i]);
        }
    }
    assert(text::decimal_value(longer) == text::decimal_value(number) * 10 + (digit as u32
        - '0' as u32) as nat);
}

/// A plus sign in front of a digit changes nothing, and alone it is no number.
pub proof fn law_plus_sign_is_ignored(number: Seq<char>)
    ensures
        number.len() > 0 && number[0] != '+' ==> text::whole_number(seq!['+'] + number)
            == text::whole_number(number),
        text::whole_number(seq!['+']) is None,
        text::whole_number(Seq::empty()) is None,
{
    assert((seq!['+'] + number).skip(1) =~= number);
    assert(seq!['+'].skip(1) =~= Seq::<char>::empty());
}

/// A text with anything but digits in it, after a plus sign that it may start with, is no number.
pub proof fn law_only_digits_are_a_number(number: Seq<char>, i: int)
    requires
        0 <= i < number.len(),
        (number[i] as u32) < ('0' as u32) || (number[i] as u32) > ('9' as u32),
        i > 0 || number[0] != '+',
    ensures
        text::whole_number(number) is None,
{
    let digits = text::unsigned_digits(number);
    if number[0] == '+' {
        assert(digits[i - 1] == number[i]);
        assert(!text::is_digit(digits[i - 1]));
    } else {
        assert(digits[i] == number[i]);
        assert(!text::is_digit(digits[i]));
    }
}

/// The text of an option that was given is its characters.
pub proof fn law_text_that_may_be_absent(given: Option<String>)
    ensures
        given is Some <==> text::text_of(given) is Some,
        given matches Some(s) ==> text::text_of(given) == Some(s@),
{
}

/// The names of the options differ from each other.
proof fn lemma_names()
    ensures
        forall|i: int, j: int|
            0 <= i < j < 10 ==> #[trigger] names()[i] != #[trigger] names()[j],
{
    reveal_strlit("-h");
    reveal_strlit("--help");
    reveal_strlit("-V");
    reveal_strlit("--version");
    reveal_strlit("-d");
    reveal_strlit("--device");
    reveal_strlit("--tap-timeout-ms");
    reveal_strlit("--scroll-move-mm");
    reveal_strlit("--primary-age-ms");
    reveal_strlit("--primary-move-mm");
    let all = names();
    assert forall|i: int, j: int| 0 <= i < j < 10 implies #[trigger] all[i] != #[trigger] all[j] by {
        let a = all[i];
        let b = all[j];
        if a == b {
            assert(a.len() == b.len());
            assert(a[1] == b[1]);
            if a.len() == 16 {
                assert(a[2] == b[2]);
            }
        }
    }
}

/// The names of the options.
spec fn names() -> Seq<Seq<char>> {
    seq![
        "-h"@,
        "--help"@,
        "-V"@,
        "--version"@,
        "-d"@,
        "--device"@,
        "--tap-timeout-ms"@,
        "--scroll-move-mm"@,
        "--primary-age-ms"@,
        "--primary-move-mm"@,
    ]
}

/// An empty command line asks for no device in particular, 45 and 140 milliseconds, and 1.5 and
/// 0.8 millimetres.
pub proof fn law_empty_command_line()
    ensures
        OptionsState::defaults().understood(Seq::empty()) == Outcome::Run(
            OptionsState {
                device: None,
                config: ConfigState {
                    min_primary_age: 45_000_000,
                    primary_move_mm: "1.5"@,
                    tap_timeout: 140_000_000,
                    scroll_move_mm: "0.8"@,
                },
            },
        ),
{
}

/// Options that are already set stay set when nothing follows.
pub proof fn law_nothing_follows(options: OptionsState)
    ensures
        options.understood(Seq::empty()) == Outcome::Run(options),
{
}

/// Help and the version are given at once, whatever follows.
pub proof fn law_help_and_version(options: OptionsState, args: Seq<Argument>)
    requires
        args.len() > 0,
    ensures
        args[0].text@ == "-h"@ || args[0].text@ == "--help"@ ==> options.understood(args)
            == Outcome::Help,
        args[0].text@ == "-V"@ || args[0].text@ == "--version"@ ==> options.understood(args)
            == Outcome::Version,
{
    lemma_names();
    let n = names();
    assert(n[0] != n[2] && n[0] != n[3] && n[1] != n[2] && n[1] != n[3]);
}

/// An argument that is no option is refused, and so is an option that comes last without a value.
pub proof fn law_refused_arguments(options: OptionsState, args: Seq<Argument>)
    requires
        args.len() > 0,
    ensures
        args[0].text@ != "-h"@ && args[0].text@ != "--help"@ && args[0].text@ != "-V"@
            && args[0].text@ != "--version"@ && args[0].text@ != "-d"@ && args[0].text@
            != "--device"@ && args[0].text@ != "--tap-timeout-ms"@ && args[0].text@
            != "--scroll-move-mm"@ && args[0].text@ != "--primary-age-ms"@ && args[0].text@
            != "--primary-move-mm"@ ==> options.understood(args) == Outcome::UnknownOption(
            args[0].text@,
        ),
        args.len() == 1 && (args[0].text@ == "-d"@ || args[0].text@ == "--device"@ || args[0].text@
            == "--tap-timeout-ms"@ || args[0].text@ == "--scroll-move-mm"@ || args[0].text@
            == "--primary-age-ms"@ || args[0].text@ == "--primary-move-mm"@) ==> options.understood(
            args,
        ) == Outcome::MissingValue(args[0].text@),
{
    lemma_names();
    let n = names();
    assert(forall|j: int| 4 <= j < 10 ==> n[0] != #[trigger] n[j]);
    assert(forall|j: int| 4 <= j < 10 ==> n[1] != #[trigger] n[j]);
    assert(forall|j: int| 4 <= j < 10 ==> n[2] != #[trigger] n[j]);
    assert(forall|j: int| 4 <= j < 10 ==> n[3] != #[trigger] n[j]);
}

/// A device is taken as it is written, whatever it is; every other option is kept.
pub proof fn law_device_option(options: OptionsState, args: Seq<Argument>)
    requires
        args.len() >= 2,
        args[0].text@ == "-d"@ || args[0].text@ == "--device"@,
    ensures
        options.understood(args) == (OptionsState {
            device: Some(args[1].text@),
            config: options.config,
        }).understood(args.skip(2)),
{
    lemma_names();
    let n = names();
    assert(n[0] != n[4] && n[1] != n[4] && n[2] != n[4] && n[3] != n[4]);
    assert(n[0] != n[5] && n[1] != n[5] && n[2] != n[5] && n[3] != n[5]);
}

/// A time is a whole number of milliseconds, a million nanoseconds each; every other option is
/// kept. Anything else is refused.
pub proof fn law_time_options(options: OptionsState, args: Seq<Argument>, time: Nanos)
    requires
        args.len() >= 2,
        args[0].text@ == "--tap-timeout-ms"@ || args[0].text@ == "--primary-age-ms"@,
        text::whole_number(args[1].text@) matches Some(ms) ==> time == ms * 1_000_000,
    ensures
        text::whole_number(args[1].text@) is None ==> options.understood(args)
            == Outcome::InvalidValue(args[0].text@, args[1].text@),
        text::whole_number(args[1].text@) is Some && args[0].text@ == "--tap-timeout-ms"@
            ==> options.understood(args) == (OptionsState {
            device: options.device,
            config: ConfigState {
                min_primary_age: options.config.min_primary_age,
                primary_move_mm: options.config.primary_move_mm,
                tap_timeout: time,
                scroll_move_mm: options.config.scroll_move_mm,
            },
        }).understood(args.skip(2)),
        text::whole_number(args[1].text@) is Some && args[0].text@ == "--primary-age-ms"@
            ==> options.understood(args) == (OptionsState {
            device: options.device,
            config: ConfigState {
                min_primary_age: time,
                primary_move_mm: options.config.primary_move_mm,
                tap_timeout: options.config.tap_timeout,
                scroll_move_mm: options.config.scroll_move_mm,
            },
        }).understood(args.skip(2)),
{
    lemma_names();
    let n = names();
    assert(n[0] != n[6] && n[1] != n[6] && n[2] != n[6] && n[3] != n[6] && n[4] != n[6] && n[5]
        != n[6]);
    assert(n[0] != n[8] && n[1] != n[8] && n[2] != n[8] && n[3] != n[8] && n[4] != n[8] && n[5]
        != n[8] && n[6] != n[8] && n[7] != n[8]);
}

/// A length is kept as it is written if it reads as a number; every other option is kept.
/// Anything else is refused.
pub proof fn law_length_options(options: OptionsState, args: Seq<Argument>)
    requires
        args.len() >= 2,
        args[0].text@ == "--scroll-move-mm"@ || args[0].text@ == "--primary-move-mm"@,
    ensures
        !args[1].is_number ==> options.understood(args) == Outcome::InvalidValue(
            args[0].text@,
            args[1].text@,
        ),
        args[1].is_number && args[0].text@ == "--scroll-move-mm"@ ==> options.understood(args) == (
        OptionsState {
            device: options.device,
            config: ConfigState {
                min_primary_age: options.config.min_primary_age,
                primary_move_mm: options.config.primary_move_mm,
                tap_timeout: options.config.tap_timeout,
                scroll_move_mm: args[1].text@,
            },
        }).understood(args.skip(2)),
        args[1].is_number && args[0].text@ == "--primary-move-mm"@ ==> options.understood(args) == (
        OptionsState {
            device: options.device,
            config: ConfigState {
                min_primary_age: options.config.min_primary_age,
                primary_move_mm: args[1].text@,
                tap_timeout: options.config.tap_timeout,
                scroll_move_mm: options.config.scroll_move_mm,
            },
        }).understood(args.skip(2)),
{
    lemma_names();
    let n = names();
    assert(n[0] != n[7] && n[1] != n[7] && n[2] != n[7] && n[3] != n[7] && n[4] != n[7] && n[5]
        != n[7] && n[6] != n[7]);
    assert(n[0] != n[9] && n[1] != n[9] && n[2] != n[9] && n[3] != n[9] && n[4] != n[9] && n[5]
        != n[9] && n[6] != n[9] && n[7] != n[9] && n[8] != n[9]);
}

/// The result of reading a command line says what comes of it, field by field.
pub proof fn law_result_says_what_comes_of_it(options: Options, option: String, value: String)
    ensures
        outcome(Ok(Invocation::Help)) == Outcome::Help,
        outcome(Ok(Invocation::Version)) == Outcome::Version,
        outcome(Ok(Invocation::Run(options))) matches Outcome::Run(state) && {
            &&& state.device is Some <==> options.device is Some
            &&& options.device matches Some(device) ==> state.device == Some(device@)
            &&& state.config.min_primary_age == options.config.min_primary_age
            &&& state.config.primary_move_mm == options.config.primary_move_mm@
            &&& state.config.tap_timeout == options.config.tap_timeout
            &&& state.config.scroll_move_mm == options.config.scroll_move_mm@
        },
        outcome(Err(OptionError::MissingValue(option))) == Outcome::MissingValue(option@),
        outcome(Err(OptionError::UnknownOption(option))) == Outcome::UnknownOption(option@),
        outcome(Err(OptionError::InvalidValue { option, value })) == Outcome::InvalidValue(
            option@,
            value@,
        ),
{
}

/// Each error is told with the option, and a refused value with the value.
pub proof fn law_errors_in_words(option: String, value: String)
    ensures
        OptionError::MissingValue(option).words() == "missing value after "@ + option@,
        OptionError::UnknownOption(option).words() == "unknown option: "@ + option@,
        (OptionError::InvalidValue { option, value }).words() == "invalid value for "@ + option@
            + ": "@ + value@,
{
}

/// Without a request, a device is chosen exactly if it is no virtual twin, moves a pointer, is no
/// screen, and reports slots, both coordinates and tracking identifiers.
pub proof fn law_touchpad_is_chosen(candidate: Candidate<'_>)
    ensures
        candidate.accepted(None) <==> {
            &&& !(candidate.name matches Some(name) && exists|start: Seq<char>|
                name@ == #[trigger] (start + " (holdtap)"@))
            &&& attributes::property_codes(candidate.properties).contains(0)
            &&& !attributes::property_codes(candidate.properties).contains(1)
            &&& candidate.axes matches Some(axes) && attributes::axis_codes(axes).contains(0x2f)
                && attributes::axis_codes(axes).contains(0x35) && attributes::axis_codes(
                axes,
            ).contains(0x36) && attributes::axis_codes(axes).contains(0x39)
        },
        candidate.eligible(None, true) == candidate.accepted(None),
        candidate.eligible(None, false) == candidate.accepted(None),
{
    if let Some(name) = candidate.name {
        law_suffix_is_what_comes_last(name@, name@, " (holdtap)"@);
    }
}

/// With a request, a device is chosen exactly if it is no virtual twin and either lies at that
/// path or has exactly that name, whatever else it is.
pub proof fn law_requested_device_is_chosen(candidate: Candidate<'_>, requested: Seq<char>)
    ensures
        candidate.accepted(Some(requested)) <==> {
            &&& !(candidate.name matches Some(name) && exists|start: Seq<char>|
                name@ == #[trigger] (start + " (holdtap)"@))
            &&& (candidate.path matches Some(path) && device::paths_equal(path@, requested)) || (
            candidate.name matches Some(name) && name@ == requested)
        },
        forall|at_path: bool| #[trigger]
            candidate.eligible(Some(requested), at_path) <==> {
                &&& !(candidate.name matches Some(name) && exists|start: Seq<char>|
                    name@ == #[trigger] (start + " (holdtap)"@))
                &&& at_path || (candidate.name matches Some(name) && name@ == requested)
            },
{
    if let Some(name) = candidate.name {
        law_suffix_is_what_comes_last(name@, name@, " (holdtap)"@);
    }
}

/// A virtual twin is called after the touchpad, with its mark at the end; without a name it is
/// called after a touchpad.
pub proof fn law_name_of_the_twin(name: Seq<char>)
    ensures
        device::twin_name(Some(name)) == name + " (holdtap)"@,
        device::twin_name(None) == "Touchpad"@ + " (holdtap)"@,
{
}

/// The resolution is the one that comes first for the horizontal axis, whatever it is; without
/// one it is twelve units in a millimetre.
pub proof fn law_resolution_of_the_horizontal_axis(resolutions: Seq<(u16, i32)>, first: int)
    requires
        0 <= first <= resolutions.len(),
        forall|i: int| 0 <= i < first ==> (#[trigger] resolutions[i]).0 != 0x35,
        first < resolutions.len() ==> resolutions[first].0 == 0x35,
    ensures
        first < resolutions.len() ==> device::horizontal_resolution(resolutions)
            == resolutions[first].1,
        first == resolutions.len() ==> device::horizontal_resolution(resolutions) == 12,
    decreases resolutions.len(),
{
    if resolutions.len() > 0 && first > 0 {
        let rest = resolutions.skip(1);
        assert(resolutions[0].0 != 0x35);
        assert forall|i: int| 0 <= i < first - 1 implies (#[trigger] rest[i]).0 != 0x35 by {
            assert(rest[i] == resolutions[i + 1]);
        }
        law_resolution_of_the_horizontal_axis(rest, first - 1);
    }
}

} // verus!
