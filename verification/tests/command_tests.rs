use iai::command::build_callgrind_command;
use iai::command::decide_role;
use iai::command::Role;
use iai::command::SimulatorLaunch;

fn to_strings(args: Vec<Vec<u8>>) -> Vec<String> {
    args.into_iter()
        .map(|a| String::from_utf8(a).unwrap())
        .collect()
}

#[test]
fn measured_mode_is_selected_by_the_reserved_flag() {
    let flag = b"--iai-run".to_vec();
    assert_eq!(decide_role(Some(&flag)), Role::Measured);
}

#[test]
fn driver_mode_is_the_default() {
    assert_eq!(decide_role(None), Role::Driver);
    let other = b"--help".to_vec();
    assert_eq!(decide_role(Some(&other)), Role::Driver);
}

#[test]
fn command_line_of_a_plain_launch() {
    let names = vec![b"alpha".to_vec(), b"beta".to_vec()];
    let out_file = b"target/iai/callgrind.out".to_vec();
    let executable = b"/path/to/bench".to_vec();
    let argv = build_callgrind_command(&SimulatorLaunch::Plain, &names, &out_file, &executable);
    assert_eq!(
        to_strings(argv),
        vec![
            "valgrind",
            "--tool=callgrind",
            "--I1=32768,8,64",
            "--D1=32768,8,64",
            "--LL=8388608,16,64",
            "--cache-sim=yes",
            "--callgrind-out-file=target/iai/callgrind.out",
            "--compress-strings=no",
            "--compress-pos=no",
            "--collect-atstart=no",
            "--toggle-collect=__iai_bench_alpha",
            "--toggle-collect=__iai_bench_beta",
            "/path/to/bench",
            "--iai-run",
        ]
        .into_iter()
        .map(String::from)
        .collect::<Vec<_>>()
    );
}

#[test]
fn setarch_launch_prefixes_the_suppression_words() {
    let names = vec![b"alpha".to_vec()];
    let out_file = b"out".to_vec();
    let executable = b"bench".to_vec();
    let argv = build_callgrind_command(
        &SimulatorLaunch::SetArch(b"x86_64".to_vec()),
        &names,
        &out_file,
        &executable,
    );
    let argv = to_strings(argv);
    assert_eq!(&argv[..4], &["setarch", "x86_64", "-R", "valgrind"]);
}

#[test]
fn proccontrol_launch_prefixes_the_suppression_words() {
    let names = vec![b"alpha".to_vec()];
    let out_file = b"out".to_vec();
    let executable = b"bench".to_vec();
    let argv = build_callgrind_command(
        &SimulatorLaunch::ProcControl,
        &names,
        &out_file,
        &executable,
    );
    let argv = to_strings(argv);
    assert_eq!(
        &argv[..6],
        &["proccontrol", "-m", "aslr", "-s", "disable", "valgrind"]
    );
}
