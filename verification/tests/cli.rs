use lotus_racer::cli::{arg_val, parse_command, parse_u32, parse_usize, Command};

fn args(v: &[&str]) -> Vec<String> {
    v.iter().map(|s| s.to_string()).collect()
}

#[test]
fn parse_numbers_like_std() {
    for s in ["0", "7", "+5", "0042", "4294967295", "4294967296", "", "+", "-1", "1a", " 1", "99999999999999999999999"] {
        assert_eq!(parse_u32(s), s.parse::<u32>().ok(), "{s:?}");
        assert_eq!(parse_usize(s), s.parse::<usize>().ok(), "{s:?}");
    }
    assert_eq!(parse_u32("4294967296"), None);
    assert_eq!(parse_usize("4294967296"), Some(4294967296));
    assert_eq!(parse_usize("18446744073709551615"), Some(usize::MAX));
    assert_eq!(parse_usize("18446744073709551616"), None);
}

#[test]
fn arg_val_takes_the_first_flag() {
    assert_eq!(arg_val(&args(&["--track", "1"]), "--track"), Some(1));
    assert_eq!(arg_val(&args(&["--track", "x", "--track", "1"]), "--track"), None);
    assert_eq!(arg_val(&args(&["--track"]), "--track"), None);
    assert_eq!(arg_val(&args(&["--sim", "5"]), "--track"), None);
}

#[test]
fn command_defaults() {
    assert_eq!(parse_command(&args(&[])), Command::Windowed);
    assert_eq!(parse_command(&args(&["--shot"])), Command::Shot { steps: 400, track: 0 });
    assert_eq!(parse_command(&args(&["--sim"])), Command::Sim { secs: 60, track: 0 });
    assert_eq!(parse_command(&args(&["--foo", "3"])), Command::Windowed);
}

#[test]
fn command_values_and_track_clamp() {
    assert_eq!(parse_command(&args(&["--shot", "12", "--track", "5"])), Command::Shot { steps: 12, track: 1 });
    assert_eq!(parse_command(&args(&["--track", "0", "--sim", "90"])), Command::Sim { secs: 90, track: 0 });
    assert_eq!(parse_command(&args(&["--sim", "abc", "--track", "1"])), Command::Sim { secs: 60, track: 1 });
    // --shot wins over --sim wherever they stand.
    assert_eq!(parse_command(&args(&["--sim", "3", "--shot", "4"])), Command::Shot { steps: 4, track: 0 });
    // A following flag is no number.
    assert_eq!(parse_command(&args(&["--shot", "--track", "1"])), Command::Shot { steps: 400, track: 1 });
}
