use vstd::prelude::*;
use vstd::string::StringSliceAdditionalSpecFns;

verus! {

/// `b` is an ASCII decimal digit.
pub open spec fn is_digit(b: u8) -> bool {
    48 <= b <= 57
}

/// The number a sequence of decimal digits spells, most significant first.
pub open spec fn decimal_value(ds: Seq<u8>) -> nat
    decreases ds.len(),
{
    if ds.len() == 0 {
        0
    } else {
        decimal_value(ds.drop_last()) * 10 + (ds.last() - 48) as nat
    }
}

/// The digits of a numeral: the text after a leading `+` sign, if one is
/// followed by anything, else the whole text.
pub open spec fn numeral_digits(bytes: Seq<u8>) -> Seq<u8> {
    if bytes.len() >= 2 && bytes[0] == 43 {
        bytes.drop_first()
    } else {
        bytes
    }
}

/// Reading text as an unsigned number no larger than `limit`, as Rust's
/// standard library reads integers: an optional `+`, then one or more
/// decimal digits and nothing else; empty text, a sign alone, any other
/// character or a value beyond `limit` give nothing.
pub open spec fn parse_unsigned(bytes: Seq<u8>, limit: nat) -> Option<nat> {
    let ds = numeral_digits(bytes);
    if ds.len() > 0 && (forall|i: int| 0 <= i < ds.len() ==> is_digit(#[trigger] ds[i]))
        && decimal_value(ds) <= limit {
        Some(decimal_value(ds))
    } else {
        None
    }
}

/// Read text as an unsigned decimal number no larger than `limit`.
fn parse_decimal(s: &str, limit: u64) -> (r: Option<u64>)
    ensures
        r == match parse_unsigned(s.spec_bytes(), limit as nat) {
            Some(v) => Some(v as u64),
            None => None::<u64>,
        },
{
    let bytes = s.as_bytes();
    let n = bytes.len();
    let ghost all = bytes@;
    let start: usize = if n >= 2 && bytes[0] == 43 {
        1
    } else {
        0
    };
    let ghost ds = numeral_digits(all);
    assert(ds =~= all.subrange(start as int, n as int));
    if start >= n {
        return None;
    }
    let mut v: u128 = 0;
    let mut i: usize = start;
    while i < n
        invariant
            bytes@ == all,
            all == s.spec_bytes(),
            n == all.len(),
            start <= i <= n,
            ds == numeral_digits(all),
            ds == all.subrange(start as int, n as int),
            forall|j: int| 0 <= j < i - start ==> is_digit(#[trigger] ds[j]),
            v == decimal_value(ds.take(i - start)),
            v <= limit,
        decreases n - i,
    {
        let b = bytes[i];
        if b < 48 || b > 57 {
            assert(!is_digit(ds[i - start]));
            assert(parse_unsigned(all, limit as nat) is None);
            return None;
        }
        let next = v * 10 + (b - 48) as u128;
        assert(ds.take(i - start + 1).drop_last() =~= ds.take(i - start));
        assert(ds.take(i - start + 1).last() == b);
        if next > limit as u128 {
            proof {
                if forall|j: int| 0 <= j < ds.len() ==> is_digit(#[trigger] ds[j]) {
                    lemma_decimal_value_prefix_grows(ds, i - start + 1);
                }
            }
            assert(parse_unsigned(all, limit as nat) is None);
            return None;
        }
        v = next;
        i += 1;
    }
    assert(ds.take(n - start) =~= ds);
    Some(v as u64)
}

/// Reading more digits never makes a numeral smaller.
proof fn lemma_decimal_value_prefix_grows(ds: Seq<u8>, k: int)
    requires
        0 <= k <= ds.len(),
        forall|j: int| 0 <= j < ds.len() ==> is_digit(#[trigger] ds[j]),
    ensures
        decimal_value(ds.take(k)) <= decimal_value(ds),
    decreases ds.len() - k,
{
    if k < ds.len() {
        lemma_decimal_value_prefix_grows(ds, k + 1);
        assert(ds.take(k + 1).drop_last() =~= ds.take(k));
    } else {
        assert(ds.take(k) =~= ds);
    }
}

/// Read text as a `usize`, as `str::parse::<usize>` does.
pub fn parse_usize(s: &str) -> (r: Option<usize>)
    ensures
        r == match parse_unsigned(s.spec_bytes(), usize::MAX as nat) {
            Some(v) => Some(v as usize),
            None => None::<usize>,
        },
{
    match parse_decimal(s, usize::MAX as u64) {
        Some(v) => Some(v as usize),
        None => None,
    }
}

/// Read text as a `u32`, as `str::parse::<u32>` does.
pub fn parse_u32(s: &str) -> (r: Option<u32>)
    ensures
        r == match parse_unsigned(s.spec_bytes(), u32::MAX as nat) {
            Some(v) => Some(v as u32),
            None => None::<u32>,
        },
{
    match parse_decimal(s, u32::MAX as u64) {
        Some(v) => Some(v as u32),
        None => None,
    }
}

/// Two strings hold the same text.
fn str_eq(a: &str, b: &str) -> (r: bool)
    ensures
        r == (a@ == b@),
{
    let x = a.as_bytes();
    let y = b.as_bytes();
    proof {
        vstd::utf8::encode_utf8_decode_utf8(a@);
        vstd::utf8::encode_utf8_decode_utf8(b@);
    }
    if x.len() != y.len() {
        return false;
    }
    let mut i: usize = 0;
    while i < x.len()
        invariant
            x@ == a.spec_bytes(),
            y@ == b.spec_bytes(),
            x@.len() == y@.len(),
            0 <= i <= x@.len(),
            forall|j: int| 0 <= j < i ==> x@[j] == y@[j],
        decreases x@.len() - i,
    {
        if x[i] != y[i] {
            return false;
        }
        i += 1;
    }
    assert(x@ =~= y@);
    true
}

/// Index of the first argument equal to `flag`.
pub open spec fn flag_position(args: Seq<Seq<char>>, flag: Seq<char>) -> Option<int> {
    if exists|i: int| 0 <= i < args.len() && args[i] == flag {
        Some(
            choose|i: int|
                0 <= i < args.len() && args[i] == flag && forall|j: int|
                    0 <= j < i ==> args[j] != flag,
        )
    } else {
        None
    }
}

/// The views of a list of arguments.
pub open spec fn arg_views(args: Seq<String>) -> Seq<Seq<char>> {
    args.map_values(|a: String| a@)
}

fn position(args: &[String], flag: &str) -> (r: Option<usize>)
    ensures
        match r {
            Some(i) => flag_position(arg_views(args@), flag@) == Some(i as int) && (i as int) < args@.len(),
            None => flag_position(arg_views(args@), flag@) is None,
        },
{
    let ghost views = arg_views(args@);
    let mut i: usize = 0;
    while i < args.len()
        invariant
            views == arg_views(args@),
            views.len() == args@.len(),
            0 <= i <= args@.len(),
            forall|j: int| 0 <= j < i ==> views[j] != flag@,
        decreases args@.len() - i,
    {
        if str_eq(args[i].as_str(), flag) {
            assert(views[i as int] == flag@);
            proof {
                let k = choose|k: int|
                    0 <= k < views.len() && views[k] == flag@ && forall|j: int|
                        0 <= j < k ==> views[j] != flag@;
                if k < i {
                } else if k > i {
                    assert(views[i as int] != flag@);
                }
            }
            return Some(i);
        }
        i += 1;
    }
    None
}

/// The number given right after the first occurrence of `flag`, read as a
/// `usize`.
pub open spec fn flag_value(args: Seq<String>, flag: Seq<char>, limit: nat) -> Option<nat> {
    match flag_position(arg_views(args), flag) {
        Some(i) => if i + 1 < args.len() {
            parse_unsigned(spec_bytes_of(args[i + 1]@), limit)
        } else {
            None
        },
        None => None,
    }
}

/// The bytes of a text.
pub open spec fn spec_bytes_of(chars: Seq<char>) -> Seq<u8> {
    vstd::utf8::encode_utf8(chars)
}

/// The value after `flag` in the arguments, if the flag is there and
/// followed by a number that fits a `usize`.
pub fn arg_val(args: &[String], flag: &str) -> (r: Option<usize>)
    ensures
        r == match flag_value(args@, flag@, usize::MAX as nat) {
            Some(v) => Some(v as usize),
            None => None::<usize>,
        },
{
    let n = args.len();
    match position(args, flag) {
        Some(i) => {
            if i + 1 < n {
                parse_usize(args[i + 1].as_str())
            } else {
                None
            }
        },
        None => None,
    }
}

/// What the program was asked to do.
#[derive(Clone, Copy, PartialEq, Eq, Structural, Debug)]
pub enum Command {
    /// Simulate `steps` fixed steps of the attract scene on track `track`
    /// and save one frame.
    Shot { steps: u32, track: usize },
    /// Run an autopilot race on track `track` for at most `secs` seconds
    /// and print the results.
    Sim { secs: u32, track: usize },
    /// Open the game window.
    Windowed,
}

/// The `u32` given right after the first `flag`, or `default` when it is
/// missing or not a number that fits.
pub open spec fn u32_after(args: Seq<String>, flag: Seq<char>, default: u32) -> u32 {
    match flag_value(args, flag, u32::MAX as nat) {
        Some(v) => v as u32,
        None => default,
    }
}

/// The track asked for with `--track`: 0 when missing, not a number or 0,
/// else 1.
pub open spec fn track_choice(args: Seq<String>) -> usize {
    match flag_value(args, "--track"@, usize::MAX as nat) {
        Some(v) => if v < 1 {
            v as usize
        } else {
            1
        },
        None => 0,
    }
}

/// The command the arguments ask for: a screenshot when `--shot` is there
/// (400 steps unless a number follows), else a simulation when `--sim` is
/// there (60 seconds unless a number follows), else the window.
pub open spec fn command_of(args: Seq<String>) -> Command {
    if flag_position(arg_views(args), "--shot"@) is Some {
        Command::Shot { steps: u32_after(args, "--shot"@, 400), track: track_choice(args) }
    } else if flag_position(arg_views(args), "--sim"@) is Some {
        Command::Sim { secs: u32_after(args, "--sim"@, 60), track: track_choice(args) }
    } else {
        Command::Windowed
    }
}

fn u32_arg(args: &[String], flag: &str, default: u32) -> (r: u32)
    ensures
        r == u32_after(args@, flag@, default),
{
    let n = args.len();
    match position(args, flag) {
        Some(i) => {
            if i + 1 < n {
                match parse_u32(args[i + 1].as_str()) {
                    Some(v) => v,
                    None => default,
                }
            } else {
                default
            }
        },
        None => default,
    }
}

fn track_arg(args: &[String]) -> (r: usize)
    ensures
        r == track_choice(args@),
{
    match arg_val(args, "--track") {
        Some(v) => if v < 1 {
            v
        } else {
            1
        },
        None => 0,
    }
}

/// Decide what the program does from its arguments (without the program
/// name).
pub fn parse_command(args: &[String]) -> (c: Command)
    ensures
        c == command_of(args@),
{
    if position(args, "--shot").is_some() {
        Command::Shot { steps: u32_arg(args, "--shot", 400), track: track_arg(args) }
    } else if position(args, "--sim").is_some() {
        Command::Sim { secs: u32_arg(args, "--sim", 60), track: track_arg(args) }
    } else {
        Command::Windowed
    }
}

/// Whatever the arguments, the command names track 0 or 1.
pub proof fn lemma_track_in_range(args: Seq<String>)
    ensures
        command_of(args) matches Command::Shot { track, .. } ==> track <= 1,
        command_of(args) matches Command::Sim { track, .. } ==> track <= 1,
{
}

} // verus!
