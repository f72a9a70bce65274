//! The command line: `<program> mp3_to_video <mp3_paths> <image_folder>
//! <output_video> <effects> <apply_all>` or `<program> break_video <mp4_path>
//! <segment_duration> <output_folder>`.
use vstd::prelude::*;
use vstd::string::*;
use crate::text::{views, chars_of, same_text, owned, decimal, digit_char};

verus! {

/// A command read from the command line.
#[derive(Debug)]
pub enum CliCommand {
    /// Make a video from MP3 files and a folder of images.
    Mp3ToVideo {
        mp3_paths: String,
        image_folder: String,
        output_video: String,
        effects: String,
        apply_all: bool,
    },
    /// Cut a video into segments of `segment_duration` seconds.
    BreakVideo { mp4_path: String, segment_duration: u64, output_folder: String },
}

/// Why the command line was refused.
#[derive(Debug, PartialEq, Eq, Structural)]
pub enum CliError {
    /// Fewer than two arguments.
    MissingArguments,
    /// `mp3_to_video` with too few arguments.
    Mp3ToVideoUsage,
    /// `break_video` with too few arguments.
    BreakVideoUsage,
    /// A first argument that names no command.
    InvalidChoice,
}

impl CliError {
    /// The message that reports the error.
    pub fn message(&self) -> (r: String)
        ensures
            *self == CliError::MissingArguments ==> r@
                == "Usage: cargo run <choice> <param1> <param2> ..."@,
            *self == CliError::Mp3ToVideoUsage ==> r@
                == "Usage for mp3_to_video: cargo run mp3_to_video <mp3_paths> <image_folder> <output_video> <effects> <apply_all (true/false)>"@,
            *self == CliError::BreakVideoUsage ==> r@
                == "Usage for break_video: cargo run break_video <mp4_path> <segment_duration> <output_folder>"@,
            *self == CliError::InvalidChoice ==> r@
                == "Invalid choice. Use 'mp3_to_video' or 'break_video'."@,
    {
        match self {
            CliError::MissingArguments => owned("Usage: cargo run <choice> <param1> <param2> ..."),
            CliError::Mp3ToVideoUsage => owned(
                "Usage for mp3_to_video: cargo run mp3_to_video <mp3_paths> <image_folder> <output_video> <effects> <apply_all (true/false)>",
            ),
            CliError::BreakVideoUsage => owned(
                "Usage for break_video: cargo run break_video <mp4_path> <segment_duration> <output_folder>",
            ),
            CliError::InvalidChoice => owned(
                "Invalid choice. Use 'mp3_to_video' or 'break_video'.",
            ),
        }
    }
}

/// `c` is an ASCII decimal digit.
pub open spec fn is_digit(c: char) -> bool {
    '0' <= c <= '9'
}

/// The value of the decimal digits `s`.
pub open spec fn digits_value(s: Seq<char>) -> nat
    decreases s.len(),
{
    if s.len() == 0 {
        0
    } else {
        digits_value(s.drop_last()) * 10 + (s.last() as nat - 48) as nat
    }
}

/// The digits of a number written with an optional leading `+`.
pub open spec fn unsigned_digits(s: Seq<char>) -> Seq<char> {
    if s.len() > 0 && s[0] == '+' {
        s.drop_first()
    } else {
        s
    }
}

/// The `u64` written as `s`: an optional `+`, then at least one decimal
/// digit, of a value that fits in 64 bits. Any other text writes none.
pub open spec fn parse_u64_spec(s: Seq<char>) -> Option<u64> {
    let d = unsigned_digits(s);
    if d.len() > 0 && (forall|i: int| 0 <= i < d.len() ==> is_digit(d[i])) && digits_value(d)
        <= u64::MAX {
        Some(digits_value(d) as u64)
    } else {
        None
    }
}

/// The boolean written as `s`: `true` or `false`. Any other text writes none.
pub open spec fn parse_bool_spec(s: Seq<char>) -> Option<bool> {
    if s == "true"@ {
        Some(true)
    } else if s == "false"@ {
        Some(false)
    } else {
        None
    }
}

/// The segment length used when the command line gives none that reads as a
/// number of seconds.
pub const DEFAULT_SEGMENT_SECONDS: u64 = 30;

/// Appending digits never lowers the value.
pub proof fn lemma_digits_value_grows(s: Seq<char>, k: int)
    requires
        0 <= k <= s.len(),
        forall|i: int| 0 <= i < s.len() ==> is_digit(s[i]),
    ensures
        digits_value(s.take(k)) <= digits_value(s),
    decreases s.len() - k,
{
    if k < s.len() {
        let t = s.take(k + 1);
        assert(t.drop_last() =~= s.take(k));
        assert(is_digit(t.last()));
        lemma_digits_value_grows(s, k + 1);
    } else {
        assert(s.take(k) =~= s);
    }
}

/// The decimal notation of `n` is made of digits and has the value `n`.
pub proof fn lemma_decimal_digits(n: nat)
    ensures
        decimal(n).len() > 0,
        forall|i: int| 0 <= i < decimal(n).len() ==> is_digit(#[trigger] decimal(n)[i]),
        digits_value(decimal(n)) == n,
    decreases n,
{
    assert(digit_char(n % 10) as nat == n % 10 + 48);
    if n >= 10 {
        lemma_decimal_digits(n / 10);
        let s = decimal(n);
        assert(s.drop_last() =~= decimal(n / 10));
        assert(forall|i: int| 0 <= i < decimal(n / 10).len() ==> s[i] == decimal(n / 10)[i]);
        assert(s.last() == digit_char(n % 10));
        assert((n / 10) * 10 + n % 10 == n) by (nonlinear_arith);
        assert(digits_value(s) == digits_value(s.drop_last()) * 10 + (s.last() as nat - 48) as nat);
        assert(digits_value(s.drop_last()) == n / 10);
        assert((s.last() as nat - 48) as nat == n % 10);
    } else {
        let s = decimal(n);
        assert(s.drop_last() =~= Seq::<char>::empty());
        assert(digits_value(s) == digits_value(s.drop_last()) * 10 + (s.last() as nat - 48) as nat);
        assert(n % 10 == n);
    }
}

/// Writing a number in decimal and reading it back gives the number: the
/// numbers that this program writes into ffmpeg arguments read as the values
/// they were made from.
pub proof fn lemma_parse_decimal(n: u64)
    ensures
        parse_u64_spec(decimal(n as nat)) == Some(n),
{
    lemma_decimal_digits(n as nat);
    let s = decimal(n as nat);
    assert(is_digit(s[0]));
    assert(unsigned_digits(s) == s);
}

/// The `u64` written as `s`, if it writes one.
pub fn parse_u64(s: &str) -> (r: Option<u64>)
    ensures
        r == parse_u64_spec(s@),
{
    let cs = chars_of(s);
    let mut start: usize = 0;
    if cs.len() > 0 && cs[0] == '+' {
        start = 1;
    }
    let ghost d = unsigned_digits(s@);
    assert(d =~= cs@.skip(start as int));
    if start >= cs.len() {
        assert(d.len() == 0);
        return None;
    }
    let mut value: u64 = 0;
    let mut i: usize = start;
    while i < cs.len()
        invariant
            start <= i <= cs.len(),
            cs@ == s@,
            d == cs@.skip(start as int),
            d == unsigned_digits(s@),
            d.len() > 0,
            forall|k: int| 0 <= k < i - start ==> is_digit(d[k]),
            value == digits_value(d.take(i - start)),
        decreases cs.len() - i,
    {
        let c = cs[i];
        assert(d[i - start] == c);
        if !('0' <= c && c <= '9') {
            assert(!is_digit(d[i - start]));
            assert(parse_u64_spec(s@) is None);
            return None;
        }
        let digit = ((c as u32) - 48) as u64;
        let ghost t = d.take(i - start + 1);
        assert(t.drop_last() =~= d.take(i - start));
        assert(t.last() == c);
        assert(digit == (c as nat - 48) as nat);
        assert(digits_value(t) == value * 10 + digit);
        if value > (u64::MAX - digit) / 10 {
            proof {
                assert(value * 10 + digit > u64::MAX) by (nonlinear_arith)
                    requires
                        value > (u64::MAX - digit) / 10,
                        digit <= 9,
                ;
                let j = i - start;
                if forall|k: int| 0 <= k < d.len() ==> is_digit(d[k]) {
                    lemma_digits_value_grows(d, j + 1);
                    assert(digits_value(d) > u64::MAX);
                }
                assert(parse_u64_spec(s@) is None);
            }
            return None;
        }
        value = value * 10 + digit;
        i = i + 1;
    }
    assert(d.take(d.len() as int) =~= d);
    Some(value)
}

/// The boolean written as `s`, if it writes one.
pub fn parse_bool(s: &str) -> (r: Option<bool>)
    ensures
        r == parse_bool_spec(s@),
{
    if same_text(s, "true") {
        Some(true)
    } else if same_text(s, "false") {
        Some(false)
    } else {
        None
    }
}

/// The arguments do not reach for a seventh argument that is not there:
/// `mp3_to_video` reads its `apply_all` flag from position 6 once it has six
/// arguments.
pub open spec fn cli_in_bounds(args: Seq<Seq<char>>) -> bool {
    !(args.len() == 6 && args[1] == "mp3_to_video"@)
}

/// The command on the command line `args` (the program's name first).
pub fn parse_cli(args: &Vec<String>) -> (r: Result<CliCommand, CliError>)
    requires
        cli_in_bounds(views(args@)),
    ensures
        args@.len() < 3 ==> r == Err::<CliCommand, CliError>(CliError::MissingArguments),
        args@.len() >= 3 && args@[1]@ == "mp3_to_video"@ && args@.len() < 6 ==> r == Err::<
            CliCommand,
            CliError,
        >(CliError::Mp3ToVideoUsage),
        args@.len() >= 7 && args@[1]@ == "mp3_to_video"@ ==> (r matches Ok(
            CliCommand::Mp3ToVideo { mp3_paths, image_folder, output_video, effects, apply_all },
        ) && mp3_paths@ == args@[2]@ && image_folder@ == args@[3]@ && output_video@ == args@[4]@
            && effects@ == args@[5]@ && apply_all == parse_bool_spec(args@[6]@).unwrap_or(true)),
        args@.len() >= 3 && args@[1]@ == "break_video"@ && args@.len() < 5 ==> r == Err::<
            CliCommand,
            CliError,
        >(CliError::BreakVideoUsage),
        args@.len() >= 5 && args@[1]@ == "break_video"@ ==> (r matches Ok(
            CliCommand::BreakVideo { mp4_path, segment_duration, output_folder },
        ) && mp4_path@ == args@[2]@ && output_folder@ == args@[4]@ && segment_duration
            == parse_u64_spec(args@[3]@).unwrap_or(DEFAULT_SEGMENT_SECONDS)),
        args@.len() >= 3 && args@[1]@ != "mp3_to_video"@ && args@[1]@ != "break_video"@ ==> r
            == Err::<CliCommand, CliError>(CliError::InvalidChoice),
{
    proof {
        reveal_strlit("mp3_to_video");
        reveal_strlit("break_video");
    }
    if args.len() < 3 {
        return Err(CliError::MissingArguments);
    }
    assert(views(args@)[1] == args@[1]@);
    if same_text(args[1].as_str(), "mp3_to_video") {
        if args.len() < 6 {
            return Err(CliError::Mp3ToVideoUsage);
        }
        let apply_all = match parse_bool(args[6].as_str()) {
            Some(b) => b,
            None => true,
        };
        Ok(
            CliCommand::Mp3ToVideo {
                mp3_paths: args[2].clone(),
                image_folder: args[3].clone(),
                output_video: args[4].clone(),
                effects: args[5].clone(),
                apply_all,
            },
        )
    } else if same_text(args[1].as_str(), "break_video") {
        if args.len() < 5 {
            return Err(CliError::BreakVideoUsage);
        }
        let segment_duration = match parse_u64(args[3].as_str()) {
            Some(n) => n,
            None => DEFAULT_SEGMENT_SECONDS,
        };
        Ok(
            CliCommand::BreakVideo {
                mp4_path: args[2].clone(),
                segment_duration,
                output_folder: args[4].clone(),
            },
        )
    } else {
        Err(CliError::InvalidChoice)
    }
}

} // verus!
