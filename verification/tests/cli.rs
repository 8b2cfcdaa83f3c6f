use urma_transport_lab::cli::{
    parse_benchmark_args, parse_demo_args, parse_profile, parse_rm_read_args, parse_send_imm_args,
    plan_benchmark, read_number, BenchmarkOptions, BenchmarkPlan, Command, DemoMode, NumberFault,
    OutputMode, ProgramRole, UrmaInput, RM_READ_USAGE, SEND_IMM_USAGE,
};
use urma_transport_lab::demo::{CHILD_USAGE, PARENT_USAGE};
use urma_transport_lab::{
    BenchmarkScenario, BenchmarkTransport, TcpBenchmarkDestination, UrmaBenchmarkDestination,
    UrmaBenchmarkProfile,
};

fn args(words: &[&str]) -> Vec<String> {
    words.iter().map(|word| word.to_string()).collect()
}

fn options(words: &[&str]) -> BenchmarkOptions {
    match parse_benchmark_args(&args(words)) {
        Ok(Command::Run(options)) => options,
        Ok(Command::Help) => panic!("help"),
        Err(detail) => panic!("{detail}"),
    }
}

fn refusal(words: &[&str]) -> String {
    match parse_benchmark_args(&args(words)) {
        Ok(Command::Run(options)) => match plan_benchmark(options, false) {
            Ok(_) => panic!("accepted"),
            Err(detail) => detail,
        },
        Ok(Command::Help) => panic!("help"),
        Err(detail) => detail,
    }
}

#[test]
fn dry_run_prints_one_validated_case_json_line() {
    let asked = options(&[
        "--dry-run",
        "--case-id",
        "cli-smoke",
        "--scenario",
        "file",
        "--transport",
        "tcp-sendfile",
        "--bytes",
        "1048576",
        "--chunk-size",
        "262144",
        "--window",
        "1",
        "--timing-mode",
        "setup-included",
        "--completion-policy",
        "durable",
        "--seed",
        "42",
    ]);
    match plan_benchmark(asked, false) {
        Ok(BenchmarkPlan::DryRun(line)) => assert_eq!(
            line,
            "{\"case_id\":\"cli-smoke\",\"repeat\":1,\"scenario\":\"file\",\"transport\":\"tcp-sendfile\",\"bytes\":1048576,\"chunk_size\":262144,\"window\":1,\"timing_mode\":\"setup-included\",\"completion_policy\":\"durable\",\"data_seed\":42}"
        ),
        _ => panic!("not a dry run"),
    }
}

#[test]
fn dry_run_rejects_transport_scenario_mismatch() {
    let detail = refusal(&[
        "--dry-run",
        "--scenario",
        "memory",
        "--transport",
        "tcp-sendfile",
    ]);
    assert!(detail.contains("tcp-sendfile is only valid for the file scenario"));
}

#[test]
fn defaults_stand_where_nothing_is_asked() {
    let asked = options(&[]);
    assert_eq!(asked, BenchmarkOptions::default());
    assert_eq!(asked.case_id, "benchmark-case");
    assert_eq!(asked.chunk_size, 65536);
    assert_eq!(asked.window, 128);
    assert_eq!(asked.urma_post_list, 16);
    assert!(matches!(
        parse_benchmark_args(&args(&["--bytes", "1", "-h", "--nonsense"])),
        Ok(Command::Help)
    ));
}

#[test]
fn every_option_sets_its_own_value() {
    let asked = options(&[
        "--role", "child", "--repeat", "3", "--transport", "tcp-userspace", "--listen", "l:1",
        "--parent", "p:2", "--input", "in", "--output", "out", "--output-mode", "truncate",
        "--cleanup-output", "--device", "dev", "--eid-index", "4", "--urma-profile", "rx128",
        "--urma-post-list", "8", "--crc-workers", "2", "--scenario", "file",
    ]);
    assert_eq!(asked.role, Some(ProgramRole::Child));
    assert_eq!(asked.repeat, 3);
    assert_eq!(asked.scenario, BenchmarkScenario::File);
    assert_eq!(asked.transport, BenchmarkTransport::TcpUserspace);
    assert_eq!(asked.listen, "l:1");
    assert_eq!(asked.parent, "p:2");
    assert_eq!(asked.input.as_deref(), Some("in"));
    assert_eq!(asked.output_mode, OutputMode::Truncate);
    assert_eq!(asked.device, "dev");
    assert_eq!(asked.eid_index, 4);
    assert_eq!(asked.urma_profile, "rx128");
    assert_eq!(asked.urma_post_list, 8);
    assert_eq!(asked.crc_workers, Some(2));
    match plan_benchmark(asked, false) {
        Ok(BenchmarkPlan::TcpChild {
            parent,
            destination: TcpBenchmarkDestination::File(path),
            cleanup,
            ..
        }) => {
            assert_eq!(parent, "p:2");
            assert_eq!(path, "out");
            assert!(cleanup);
        }
        _ => panic!("not a receiving run"),
    }
}

#[test]
fn refused_command_lines_say_why() {
    assert_eq!(refusal(&["--bytes"]), "--bytes requires a value");
    assert_eq!(refusal(&["--role", "both"]), "invalid --role \"both\"");
    assert_eq!(
        refusal(&["--output-mode", "append"]),
        "invalid --output-mode \"append\""
    );
    assert_eq!(
        refusal(&["--frobnicate"]),
        "unknown argument \"--frobnicate\"; use --help"
    );
    assert_eq!(
        refusal(&["--window", "4294967296"]),
        "invalid value for --window: number too large to fit in target type"
    );
    assert_eq!(
        refusal(&["--seed", "-1"]),
        "invalid value for --seed: invalid digit found in string"
    );
    assert_eq!(
        refusal(&["--seed", ""]),
        "invalid value for --seed: cannot parse integer from empty string"
    );
    assert_eq!(refusal(&[]), "benchmark requires --role parent or --role child");
    assert_eq!(
        refusal(&["--role", "parent", "--cleanup-output"]),
        "--cleanup-output requires --role child --scenario file"
    );
    assert_eq!(
        refusal(&["--role", "parent", "--transport", "urma"]),
        "URMA benchmark requires --features urma"
    );
    assert_eq!(
        refusal(&["--role", "parent", "--scenario", "file"]),
        "file Parent requires --input PATH"
    );
    assert_eq!(
        refusal(&["--role", "child", "--scenario", "file"]),
        "file Child requires --output PATH"
    );
}

#[test]
fn numbers_are_read_as_written() {
    assert_eq!(read_number("+007", 100), Ok(7));
    assert_eq!(read_number("18446744073709551615", u64::MAX), Ok(u64::MAX));
    assert_eq!(
        read_number("18446744073709551616", u64::MAX),
        Err(NumberFault::TooLarge)
    );
    assert_eq!(read_number("999x", 100), Err(NumberFault::TooLarge));
    assert_eq!(read_number("9x9", 100), Err(NumberFault::InvalidDigit));
    assert_eq!(read_number("+", 100), Err(NumberFault::InvalidDigit));
    assert_eq!(read_number("", 100), Err(NumberFault::Empty));
    assert_eq!("+".parse::<u32>().unwrap_err().to_string(), NumberFault::InvalidDigit.as_str());
    assert_eq!("".parse::<u32>().unwrap_err().to_string(), NumberFault::Empty.as_str());
    assert_eq!("999".parse::<u8>().unwrap_err().to_string(), NumberFault::TooLarge.as_str());
}

#[test]
fn profiles_are_known_by_name() {
    assert_eq!(parse_profile("normal"), Ok(UrmaBenchmarkProfile::Normal));
    assert_eq!(
        parse_profile("fixed-tx-transport-only"),
        Ok(UrmaBenchmarkProfile::FixedTxTransportOnly)
    );
    assert_eq!(
        parse_profile("slow"),
        Err("invalid --urma-profile \"slow\"".to_string())
    );
}

#[test]
fn demonstrations_move_a_file_or_play_ping_pong() {
    let asked = parse_demo_args(&args(&["dev", "host:1", "file"]), PARENT_USAGE).unwrap();
    assert_eq!(asked.device, "dev");
    assert_eq!(asked.mode, DemoMode::File("file".to_string()));
    let asked = parse_demo_args(&args(&["dev", "host:1", "--ping-pong"]), PARENT_USAGE).unwrap();
    assert_eq!(asked.mode, DemoMode::PingPong(1));
    let asked =
        parse_demo_args(&args(&["dev", "host:1", "--ping-pong", "100"]), CHILD_USAGE).unwrap();
    assert_eq!(asked.mode, DemoMode::PingPong(100));
    assert_eq!(
        parse_demo_args(&args(&["dev"]), CHILD_USAGE),
        Err(CHILD_USAGE.to_string())
    );
    assert_eq!(
        parse_demo_args(&args(&["d", "a", "--ping-pong", "0"]), CHILD_USAGE),
        Err("rounds must be non-zero".to_string())
    );
}

#[test]
fn probe_command_lines_are_read() {
    let (target, count) = parse_send_imm_args(&args(&["parent", "dev", "1", "host:1"])).unwrap();
    assert_eq!(target.role, ProgramRole::Parent);
    assert_eq!(target.eid_index, 1);
    assert_eq!(count, 64);
    assert_eq!(
        parse_send_imm_args(&args(&["parent", "dev", "1", "host:1", "4097"])),
        Err(SEND_IMM_USAGE.to_string())
    );

    let (role, address, config) =
        parse_rm_read_args(&args(&["child", "dev", "1", "host:1", "4096", "512"])).unwrap();
    assert_eq!(role, ProgramRole::Child);
    assert_eq!(address, "host:1");
    assert_eq!(config.transfer_bytes, 4096);
    assert_eq!(config.chunk_bytes, 512);
    assert_eq!(config.queue_depth, 128);
    assert!(matches!(
        parse_rm_read_args(&args(&["nobody", "dev", "1", "host:1"])),
        Err(detail) if detail == RM_READ_USAGE
    ));
    assert!(matches!(
        parse_rm_read_args(&args(&["child", "dev", "x", "host:1"])),
        Err(detail) if detail == "invalid digit found in string"
    ));
}

#[test]
fn urma_cases_run_where_there_is_a_provider() {
    let asked = options(&[
        "--role", "parent", "--transport", "urma", "--urma-profile", "fixed-tx", "--device", "dev",
    ]);
    match plan_benchmark(asked, true) {
        Ok(BenchmarkPlan::UrmaParent {
            device,
            source,
            profile,
            post_list,
            ..
        }) => {
            assert_eq!(device, "dev");
            assert_eq!(source, UrmaInput::Fixed);
            assert_eq!(profile, UrmaBenchmarkProfile::FixedTx);
            assert_eq!(post_list, 16);
        }
        _ => panic!("not a sending run"),
    }
    let asked = options(&[
        "--role", "child", "--transport", "urma", "--scenario", "file", "--output", "out",
        "--crc-workers", "3",
    ]);
    match plan_benchmark(asked, true) {
        Ok(BenchmarkPlan::UrmaChild {
            destination,
            crc_workers,
            cleanup,
            ..
        }) => {
            assert_eq!(
                destination,
                UrmaBenchmarkDestination::FreshFile("out".to_string())
            );
            assert_eq!(crc_workers, Some(3));
            assert!(!cleanup);
        }
        _ => panic!("not a receiving run"),
    }
    let asked = options(&["--role", "child", "--transport", "urma", "--urma-profile", "slow"]);
    assert!(matches!(
        plan_benchmark(asked, true),
        Err(detail) if detail == "invalid --urma-profile \"slow\""
    ));
}
