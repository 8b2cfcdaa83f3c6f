//! What the command lines ask for.

use vstd::prelude::*;

use super::{
    applied, demo_parsed, number_of, parsed, profile_of, rm_read_parsed, role_of,
    scanned, send_imm_parsed, CommandView, DemoModeView, DestinationView, OptionsView, OutputMode,
    PlanView, ProgramRole,
};
use crate::benchmark::{
    BenchmarkScenario, BenchmarkTransport, FileCompletionPolicy, TimingMode,
};
use crate::text;
use crate::urma_benchmark::UrmaBenchmarkProfile;

verus! {

/// The options, taken.
pub open spec fn set(options: OptionsView) -> core::result::Result<OptionsView, Seq<char>> {
    Ok(options)
}

/// What stands for a number in a text: all of it, or what follows a plus sign.
pub open spec fn digits_of(value: Seq<char>) -> Seq<char> {
    if value.len() > 0 && value[0] == '+' {
        value.skip(1)
    } else {
        value
    }
}

/// A text is a number exactly where it is decimal digits, after a plus sign or not, that stand for no
/// more than the largest number; it is then what the digits stand for.
pub proof fn numbers_are_read_exactly_when(value: Seq<char>, maximum: nat)
    ensures
        number_of(value, maximum) is Ok <==> {
            &&& digits_of(value).len() > 0
            &&& forall|i: int|
                0 <= i < digits_of(value).len() ==> text::is_decimal_digit(
                    #[trigger] digits_of(value)[i],
                )
            &&& text::decimal_value(digits_of(value)) <= maximum
        },
        number_of(value, maximum) matches Ok(number) ==> number == text::decimal_value(
            digits_of(value),
        ),
{
    lemma_scanned(digits_of(value), maximum);
}

proof fn lemma_scanned(digits: Seq<char>, maximum: nat)
    ensures
        scanned(digits, maximum) is Ok <==> (forall|i: int|
            0 <= i < digits.len() ==> text::is_decimal_digit(#[trigger] digits[i]))
            && text::decimal_value(digits) <= maximum,
        scanned(digits, maximum) matches Ok(number) ==> number == text::decimal_value(digits),
    decreases digits.len(),
{
    if digits.len() > 0 {
        let shorter = digits.drop_last();
        lemma_scanned(shorter, maximum);
        let last = digits.len() - 1;
        if scanned(digits, maximum) is Ok {
            assert forall|i: int| 0 <= i < digits.len() implies text::is_decimal_digit(
                #[trigger] digits[i],
            ) by {
                if i < last {
                    assert(shorter[i] == digits[i]);
                }
            }
        } else if (forall|i: int|
            0 <= i < digits.len() ==> text::is_decimal_digit(#[trigger] digits[i]))
            && text::decimal_value(digits) <= maximum {
            assert forall|i: int| 0 <= i < shorter.len() implies text::is_decimal_digit(
                #[trigger] shorter[i],
            ) by {
                assert(shorter[i] == digits[i]);
            }
            assert(text::is_decimal_digit(digits[last]));
        }
    }
}

/// The decimal of a number is read back, up to the largest number.
pub proof fn numbers_are_read_back(number: nat, maximum: nat)
    ensures
        number <= maximum ==> number_of(text::decimal(number), maximum) == Ok::<
            nat,
            super::NumberFault,
        >(number),
        number > maximum ==> number_of(text::decimal(number), maximum) is Err,
{
    let value = text::decimal(number);
    text::lemma_decimal_round_trip(number);
    numbers_are_read_exactly_when(value, maximum);
    assert(text::is_decimal_digit(value[0]));
}

proof fn lemma_options()
    ensures
        "--role"@.len() == 6 && "--role"@[2] == 'r',
        "--case-id"@.len() == 9 && "--case-id"@[2] == 'c',
        "--repeat"@.len() == 8 && "--repeat"@[2] == 'r',
        "--scenario"@.len() == 10 && "--scenario"@[2] == 's',
        "--transport"@.len() == 11 && "--transport"@[2] == 't',
        "--bytes"@.len() == 7 && "--bytes"@[2] == 'b',
        "--chunk-size"@.len() == 12 && "--chunk-size"@[2] == 'c',
        "--window"@.len() == 8 && "--window"@[2] == 'w',
        "--timing-mode"@.len() == 13 && "--timing-mode"@[2] == 't',
        "--completion-policy"@.len() == 19 && "--completion-policy"@[2] == 'c',
        "--seed"@.len() == 6 && "--seed"@[2] == 's',
        "--listen"@.len() == 8 && "--listen"@[2] == 'l',
        "--parent"@.len() == 8 && "--parent"@[2] == 'p',
        "--input"@.len() == 7 && "--input"@[2] == 'i',
        "--output"@.len() == 8 && "--output"@[2] == 'o',
        "--output-mode"@.len() == 13 && "--output-mode"@[2] == 'o',
        "--device"@.len() == 8 && "--device"@[2] == 'd',
        "--eid-index"@.len() == 11 && "--eid-index"@[2] == 'e',
        "--urma-profile"@.len() == 14 && "--urma-profile"@[2] == 'u',
        "--urma-post-list"@.len() == 16 && "--urma-post-list"@[2] == 'u',
        "--crc-workers"@.len() == 13 && "--crc-workers"@[2] == 'c',
{
    reveal_strlit("--role");
    reveal_strlit("--case-id");
    reveal_strlit("--repeat");
    reveal_strlit("--scenario");
    reveal_strlit("--transport");
    reveal_strlit("--bytes");
    reveal_strlit("--chunk-size");
    reveal_strlit("--window");
    reveal_strlit("--timing-mode");
    reveal_strlit("--completion-policy");
    reveal_strlit("--seed");
    reveal_strlit("--listen");
    reveal_strlit("--parent");
    reveal_strlit("--input");
    reveal_strlit("--output");
    reveal_strlit("--output-mode");
    reveal_strlit("--device");
    reveal_strlit("--eid-index");
    reveal_strlit("--urma-profile");
    reveal_strlit("--urma-post-list");
    reveal_strlit("--crc-workers");
}

/// An option that takes a text sets its own value to it, and leaves all others as they are.
pub proof fn text_options_set_their_own_value(options: OptionsView, value: Seq<char>)
    ensures
        applied(options, "--case-id"@, value) == set(OptionsView { case_id: value, ..options }),
        applied(options, "--listen"@, value) == set(OptionsView { listen: value, ..options }),
        applied(options, "--parent"@, value) == set(OptionsView { parent: value, ..options }),
        applied(options, "--device"@, value) == set(OptionsView { device: value, ..options }),
        applied(options, "--urma-profile"@, value) == set(OptionsView { urma_profile: value, ..options }),
        applied(options, "--input"@, value) == set(OptionsView { input: Some(value), ..options }),
        applied(options, "--output"@, value) == set(OptionsView { output: Some(value), ..options }),
{
    lemma_options();
}

/// An option that takes a number sets its own value to it, where it can hold it, and leaves all others
/// as they are.
pub proof fn number_options_set_their_own_value(options: OptionsView, number: nat)
    ensures
        number <= u32::MAX ==> applied(options, "--repeat"@, text::decimal(number)) == set(
            OptionsView { repeat: number as u32, ..options },
        ),
        number > u32::MAX ==> applied(options, "--repeat"@, text::decimal(number)) is Err,
        number <= u64::MAX ==> applied(options, "--bytes"@, text::decimal(number)) == set(
            OptionsView { bytes: number as u64, ..options },
        ),
        number > u64::MAX ==> applied(options, "--bytes"@, text::decimal(number)) is Err,
        number <= u64::MAX ==> applied(options, "--chunk-size"@, text::decimal(number)) == set(
            OptionsView { chunk_size: number as u64, ..options },
        ),
        number > u64::MAX ==> applied(options, "--chunk-size"@, text::decimal(number)) is Err,
        number <= u32::MAX ==> applied(options, "--window"@, text::decimal(number)) == set(
            OptionsView { window: number as u32, ..options },
        ),
        number > u32::MAX ==> applied(options, "--window"@, text::decimal(number)) is Err,
        number <= u64::MAX ==> applied(options, "--seed"@, text::decimal(number)) == set(
            OptionsView { data_seed: number as u64, ..options },
        ),
        number > u64::MAX ==> applied(options, "--seed"@, text::decimal(number)) is Err,
        number <= u32::MAX ==> applied(options, "--eid-index"@, text::decimal(number)) == set(
            OptionsView { eid_index: number as u32, ..options },
        ),
        number > u32::MAX ==> applied(options, "--eid-index"@, text::decimal(number)) is Err,
        number <= usize::MAX ==> applied(options, "--urma-post-list"@, text::decimal(number)) == set(
            OptionsView { urma_post_list: number as usize, ..options },
        ),
        number > usize::MAX ==> applied(options, "--urma-post-list"@, text::decimal(number)) is Err,
        number <= usize::MAX ==> applied(options, "--crc-workers"@, text::decimal(number)) == set(
            OptionsView { crc_workers: Some(number as usize), ..options },
        ),
        number > usize::MAX ==> applied(options, "--crc-workers"@, text::decimal(number)) is Err,
{
    lemma_options();
    numbers_are_read_back(number, u32::MAX as nat);
    numbers_are_read_back(number, u64::MAX as nat);
    numbers_are_read_back(number, usize::MAX as nat);
}

/// An option that takes a name sets its own value to what is named, and leaves all others as they are.
pub proof fn name_options_set_their_own_value(
    options: OptionsView,
    scenario: BenchmarkScenario,
    transport: BenchmarkTransport,
    timing_mode: TimingMode,
    completion_policy: FileCompletionPolicy,
)
    ensures
        applied(options, "--scenario"@, scenario.name()) == set(OptionsView { scenario, ..options }),
        applied(options, "--transport"@, transport.name()) == set(
            OptionsView { transport, ..options },
        ),
        applied(options, "--timing-mode"@, timing_mode.name()) == set(
            OptionsView { timing_mode, ..options },
        ),
        applied(options, "--completion-policy"@, completion_policy.name()) == set(
            OptionsView { completion_policy, ..options },
        ),
        applied(options, "--role"@, "parent"@) == set(
            OptionsView { role: Some(ProgramRole::Parent), ..options },
        ),
        applied(options, "--role"@, "child"@) == set(
            OptionsView { role: Some(ProgramRole::Child), ..options },
        ),
        applied(options, "--output-mode"@, "fresh"@) == set(
            OptionsView { output_mode: OutputMode::Fresh, ..options },
        ),
        applied(options, "--output-mode"@, "truncate"@) == set(
            OptionsView { output_mode: OutputMode::Truncate, ..options },
        ),
{
    lemma_options();
    crate::benchmark::laws::names_are_read_back(
        scenario,
        transport,
        timing_mode,
        completion_policy,
    );
    reveal_strlit("parent");
    reveal_strlit("child");
    reveal_strlit("fresh");
    reveal_strlit("truncate");
    assert("parent"@.len() != "child"@.len());
    assert("fresh"@.len() != "truncate"@.len());
}

/// A command line is read from the left: where its first part asks for a run, the rest is read on top
/// of what that part asked for.
pub proof fn command_lines_are_read_in_order(
    first: Seq<Seq<char>>,
    rest: Seq<Seq<char>>,
    options: OptionsView,
)
    ensures
        parsed(first, options) matches Ok(CommandView::Run(changed)) ==> parsed(
            first + rest,
            options,
        ) == parsed(rest, changed),
        parsed(first, options) == Ok::<CommandView, Seq<char>>(CommandView::Help) ==> parsed(
            first + rest,
            options,
        ) == Ok::<CommandView, Seq<char>>(CommandView::Help),
    decreases first.len(),
{
    if first.len() == 0 {
        assert(first + rest =~= rest);
    } else {
        let option = first[0];
        assert((first + rest)[0] == option);
        assert((first + rest).skip(1) =~= first.skip(1) + rest);
        if option == "--dry-run"@ {
            command_lines_are_read_in_order(
                first.skip(1),
                rest,
                OptionsView { dry_run: true, ..options },
            );
        } else if option == "--cleanup-output"@ {
            command_lines_are_read_in_order(
                first.skip(1),
                rest,
                OptionsView { cleanup_output: true, ..options },
            );
        } else if first.len() > 1 {
            assert((first + rest)[1] == first[1]);
            assert((first + rest).skip(2) =~= first.skip(2) + rest);
            if applied(options, option, first[1]) is Ok {
                command_lines_are_read_in_order(
                    first.skip(2),
                    rest,
                    applied(options, option, first[1])->Ok_0,
                );
            }
        }
    }
}

/// The case that is asked for has the values of the options.
pub proof fn cases_have_the_values_of_the_options(options: OptionsView)
    ensures
        ({
            let case = options.case();
            &&& case.case_id == options.case_id
            &&& case.repeat == options.repeat
            &&& case.scenario == options.scenario
            &&& case.transport == options.transport
            &&& case.transfer_bytes == options.bytes
            &&& case.chunk_size == options.chunk_size
            &&& case.window == options.window
            &&& case.timing_mode == options.timing_mode
            &&& case.completion_policy == options.completion_policy
            &&& case.data_seed == options.data_seed
        }),
{
}

/// What runs is what the options name: a dry run only where it is asked for; otherwise the side and the
/// transport that were named, with the files that a file case needs, and URMA only where there is a
/// provider. Files are given up afterwards only by a receiver of a file.
pub proof fn plans_run_what_was_asked_for(options: OptionsView, has_provider: bool)
    ensures
        options.plan(has_provider) is Ok <==> {
            &&& options.case().error() is None
            &&& options.dry_run || {
                &&& options.role matches Some(role)
                &&& options.cleanup_output ==> role == ProgramRole::Child && options.scenario
                    == BenchmarkScenario::File
                &&& options.scenario == BenchmarkScenario::File ==> match role {
                    ProgramRole::Parent => options.input is Some,
                    ProgramRole::Child => options.output is Some,
                }
                &&& options.transport == BenchmarkTransport::Urma ==> has_provider
                    && super::profile_of(options.urma_profile) is Ok
            }
        },
        options.plan(has_provider) matches Ok(plan) ==> {
            &&& plan is DryRun <==> options.dry_run
            &&& !options.dry_run ==> {
                &&& plan is TcpParent || plan is UrmaParent <==> options.role == Some(
                    ProgramRole::Parent,
                )
                &&& plan is TcpChild || plan is UrmaChild <==> options.role == Some(
                    ProgramRole::Child,
                )
                &&& plan is UrmaParent || plan is UrmaChild <==> options.transport
                    == BenchmarkTransport::Urma
                &&& plan matches PlanView::TcpParent { case, listen, input } ==> case
                    == options.case() && listen == options.listen && (input is Some
                    <==> options.scenario == BenchmarkScenario::File) && (input is Some ==> input
                    == options.input)
                &&& plan matches PlanView::TcpChild { case, parent, cleanup, .. } ==> case
                    == options.case() && parent == options.parent && cleanup
                    == options.cleanup_output
                &&& plan matches PlanView::UrmaParent { case, device, eid_index, listen, post_list, .. }
                    ==> case == options.case() && device == options.device && eid_index
                    == options.eid_index && listen == options.listen && post_list
                    == options.urma_post_list
                &&& plan matches PlanView::UrmaChild {
                    case,
                    device,
                    eid_index,
                    parent,
                    crc_workers,
                    cleanup,
                    ..
                } ==> case == options.case() && device == options.device && eid_index
                    == options.eid_index && parent == options.parent && crc_workers
                    == options.crc_workers && cleanup == options.cleanup_output
            }
        },
{
}

/// A receiver of a file case writes the file that was named: a new one unless it may be truncated; a
/// memory case needs none.
pub proof fn destinations_are_what_was_named(options: OptionsView)
    ensures
        options.scenario == BenchmarkScenario::Memory ==> options.destination() == Ok::<
            DestinationView,
            Seq<char>,
        >(DestinationView::Memory),
        options.scenario == BenchmarkScenario::File ==> {
            &&& options.destination() is Ok <==> options.output is Some
            &&& options.output matches Some(path) ==> options.destination() == Ok::<
                DestinationView,
                Seq<char>,
            >(
                if options.output_mode == OutputMode::Fresh {
                    DestinationView::FreshFile(path)
                } else {
                    DestinationView::File(path)
                },
            )
        },
{
}

/// The profiles are named by what they fix and what they measure: a profile that fixes what is sent has
/// the name of the one that does not, after `fixed-tx-`, and the plain one is `normal` or `fixed-tx`.
pub proof fn profiles_are_read_by_name()
    ensures
        profile_of("normal"@) == named(UrmaBenchmarkProfile::Normal),
        profile_of("fixed-tx"@) == named(UrmaBenchmarkProfile::FixedTx),
        profile_of("rx128"@) == named(UrmaBenchmarkProfile::Rx128),
        profile_of("fixed-tx-"@ + "rx128"@) == named(UrmaBenchmarkProfile::FixedTxRx128),
        profile_of("transport-only"@) == named(UrmaBenchmarkProfile::TransportOnly),
        profile_of("fixed-tx-"@ + "transport-only"@) == named(
            UrmaBenchmarkProfile::FixedTxTransportOnly,
        ),
{
    reveal_strlit("normal");
    reveal_strlit("fixed-tx");
    reveal_strlit("fixed-tx-");
    reveal_strlit("rx128");
    reveal_strlit("fixed-tx-rx128");
    reveal_strlit("transport-only");
    reveal_strlit("fixed-tx-transport-only");
    assert("fixed-tx-rx128"@ =~= "fixed-tx-"@ + "rx128"@);
    assert("fixed-tx-transport-only"@ =~= "fixed-tx-"@ + "transport-only"@);
    assert("transport-only"@[0] == 't' && "fixed-tx-rx128"@[0] == 'f');
    assert("normal"@.len() == 6 && "fixed-tx"@.len() == 8 && "rx128"@.len() == 5);
    assert("fixed-tx-rx128"@.len() == 14 && "transport-only"@.len() == 14);
    assert("fixed-tx-transport-only"@.len() == 23);
}

/// The profile, read.
pub open spec fn named(profile: UrmaBenchmarkProfile) -> core::result::Result<
    UrmaBenchmarkProfile,
    Seq<char>,
> {
    Ok(profile)
}

/// The probe of sends takes a side, a device, an address index, an address and, where it is there, a
/// number of messages from one to 4096, and nothing more; without it, 64 messages are sent.
pub proof fn send_imm_command_lines_are_taken_exactly_when(args: Seq<Seq<char>>)
    ensures
        send_imm_parsed(args) is Ok <==> {
            &&& args.len() == 4 || args.len() == 5
            &&& role_of(args[0]) is Some
            &&& number_of(args[2], u32::MAX as nat) is Ok
            &&& args.len() == 5 ==> (number_of(args[4], usize::MAX as nat) matches Ok(count) && 1
                <= count <= 4096)
        },
        send_imm_parsed(args) matches Ok((target, count)) ==> {
            &&& role_of(args[0]) == Some(target.role)
            &&& target.device == args[1]
            &&& number_of(args[2], u32::MAX as nat) matches Ok(eid_index) && target.eid_index
                == eid_index
            &&& target.address == args[3]
            &&& args.len() == 4 ==> count == 64
            &&& args.len() == 5 ==> (number_of(args[4], usize::MAX as nat) matches Ok(asked)
                && count == asked)
        },
{
    if args.len() > 2 {
        numbers_are_read_exactly_when(args[2], u32::MAX as nat);
    }
}

/// The probe of reads takes a side, a device, an address index, an address and, where they are there,
/// the bytes to read, the bytes of a read and the depth of the queue, and nothing more; each of these
/// that is not there has its default.
pub proof fn rm_read_command_lines_are_taken_exactly_when(args: Seq<Seq<char>>)
    ensures
        rm_read_parsed(args) is Ok <==> {
            &&& 4 <= args.len() <= 7
            &&& role_of(args[0]) is Some
            &&& number_of(args[2], u32::MAX as nat) is Ok
            &&& args.len() > 4 ==> number_of(args[4], usize::MAX as nat) is Ok
            &&& args.len() > 5 ==> number_of(args[5], usize::MAX as nat) is Ok
            &&& args.len() > 6 ==> number_of(args[6], u32::MAX as nat) is Ok
        },
        rm_read_parsed(args) matches Ok((target, sizes)) ==> {
            &&& role_of(args[0]) == Some(target.role)
            &&& target.device == args[1]
            &&& number_of(args[2], u32::MAX as nat) matches Ok(eid_index) && target.eid_index
                == eid_index
            &&& target.address == args[3]
            &&& args.len() <= 4 ==> sizes.transfer_bytes == 67_108_864
            &&& args.len() > 4 ==> (number_of(args[4], usize::MAX as nat) matches Ok(asked)
                && sizes.transfer_bytes == asked)
            &&& args.len() <= 5 ==> sizes.chunk_bytes == 1_048_576
            &&& args.len() > 5 ==> (number_of(args[5], usize::MAX as nat) matches Ok(asked)
                && sizes.chunk_bytes == asked)
            &&& args.len() <= 6 ==> sizes.queue_depth == 128
            &&& args.len() > 6 ==> (number_of(args[6], u32::MAX as nat) matches Ok(asked)
                && sizes.queue_depth == asked)
        },
{
    if args.len() > 2 {
        numbers_are_read_exactly_when(args[2], u32::MAX as nat);
    }
}

/// A demonstration takes a device, an address and either a file or a ping-pong, of one round unless a
/// number of rounds follows, which is not zero.
pub proof fn demo_command_lines_are_taken_exactly_when(args: Seq<Seq<char>>, usage: Seq<char>)
    ensures
        demo_parsed(args, usage) is Ok <==> {
            &&& args.len() >= 3
            &&& args[2] == "--ping-pong"@ && args.len() > 3 ==> (number_of(
                args[3],
                u32::MAX as nat,
            ) matches Ok(rounds) && rounds > 0)
        },
        demo_parsed(args, usage) matches Ok(demo) ==> {
            &&& demo.device == args[0]
            &&& demo.address == args[1]
            &&& args[2] != "--ping-pong"@ ==> demo.mode == DemoModeView::File(args[2])
            &&& args[2] == "--ping-pong"@ ==> (demo.mode matches DemoModeView::PingPong(rounds)
                && if args.len() == 3 {
                rounds == 1
            } else {
                number_of(args[3], u32::MAX as nat) matches Ok(asked) && rounds == asked
            })
        },
{
    if args.len() > 3 {
        lemma_bounded(args[3], u32::MAX as nat);
    }
}

proof fn lemma_bounded(value: Seq<char>, maximum: nat)
    ensures
        number_of(value, maximum) matches Ok(number) ==> number <= maximum,
{
    numbers_are_read_exactly_when(value, maximum);
}

} // verus!
