//! Playback configuration: what the command line asks for and what the
//! decoder reports about the source.

use vstd::prelude::*;
use vstd::string::{StrSliceExecFns, StringExecFns};
use crate::globals::DEF_WIDTH;

verus! {

/// Settings of one playback session. Times are in milliseconds; the aspect
/// ratio of the source is the pair `video_size`, width to height.
#[derive(Debug)]
pub struct Config {
    pub file_name: String,
    pub video_size: (usize, usize),
    pub width_chars: usize,
    pub sampling_rate: (usize, usize),
    pub frame_rate: u64,
    pub frame_size: usize,
    pub delta_t_ms: u64,
}

impl Clone for Config {
    fn clone(&self) -> (c: Config)
        ensures
            c.file_name@ == self.file_name@,
            c.video_size == self.video_size,
            c.width_chars == self.width_chars,
            c.sampling_rate == self.sampling_rate,
            c.frame_rate == self.frame_rate,
            c.frame_size == self.frame_size,
            c.delta_t_ms == self.delta_t_ms,
    {
        Config {
            file_name: self.file_name.clone(),
            video_size: (self.video_size.0, self.video_size.1),
            width_chars: self.width_chars,
            sampling_rate: (self.sampling_rate.0, self.sampling_rate.1),
            frame_rate: self.frame_rate,
            frame_size: self.frame_size,
            delta_t_ms: self.delta_t_ms,
        }
    }
}

/// Why a command line gives no configuration.
#[derive(PartialEq, Eq, Structural, Debug, Copy, Clone)]
pub enum ConfigError {
    /// No argument names the input file.
    MissingFile,
    /// The argument at `index` starts with `-` and is no width flag.
    UnknownFlag { index: usize },
    /// The width flag at `index` is the last argument.
    MissingWidthValue { index: usize },
    /// The argument at `index`, the value of a width flag, is no positive
    /// whole number that fits the machine word.
    InvalidWidth { index: usize },
}

/// What the decoder reports about its source before playback starts. The
/// frame rate counts frames per thousand seconds.
#[derive(PartialEq, Eq, Structural, Debug, Copy, Clone)]
pub struct DecoderInfo {
    pub width: u32,
    pub height: u32,
    pub frame_rate_millis: u64,
}

/// What the arguments read so far have set.
pub struct Parsed {
    pub width: usize,
    pub file_name: Option<Seq<char>>,
}

/// Whether `text` starts with the characters of `prefix`.
pub open spec fn starts_with(text: Seq<char>, prefix: Seq<char>) -> bool {
    prefix.len() <= text.len() && text.subrange(0, prefix.len() as int) == prefix
}

/// Whether an argument is a flag: it starts with `-`.
pub open spec fn is_flag(arg: Seq<char>) -> bool {
    arg.len() > 0 && arg[0] == '-'
}

/// Whether an argument is the width flag: it starts with `--width` or `-w`.
pub open spec fn is_width_flag(arg: Seq<char>) -> bool {
    starts_with(arg, seq!['-', '-', 'w', 'i', 'd', 't', 'h']) || starts_with(arg, seq!['-', 'w'])
}

/// Whether a character is a decimal digit.
pub open spec fn is_digit(c: char) -> bool {
    '0' <= c <= '9'
}

/// Whether `text` is one or more decimal digits.
pub open spec fn is_decimal(text: Seq<char>) -> bool {
    text.len() > 0 && forall|i: int| 0 <= i < text.len() ==> is_digit(#[trigger] text[i])
}

/// The number that a sequence of decimal digits writes.
pub open spec fn decimal_value(digits: Seq<char>) -> nat
    decreases digits.len(),
{
    if digits.len() == 0 {
        0
    } else {
        (decimal_value(digits.drop_last()) * 10 + (digits.last() as u32 - '0' as u32)) as nat
    }
}

/// The digits of a width: the text without one leading `+`, if it has one.
pub open spec fn width_digits(text: Seq<char>) -> Seq<char> {
    if text.len() > 0 && text[0] == '+' {
        text.subrange(1, text.len() as int)
    } else {
        text
    }
}

/// The width that `text` writes: a positive decimal number of machine-word
/// size, with or without a leading `+`; `None` for any other text.
pub open spec fn width_of(text: Seq<char>) -> Option<usize> {
    let digits = width_digits(text);
    if is_decimal(digits) && 1 <= decimal_value(digits) <= usize::MAX {
        Some(decimal_value(digits) as usize)
    } else {
        None
    }
}

/// Reads the arguments from position `i` on. A width flag takes the argument
/// after it as its value; any other flag is an error; every other argument
/// names the input file, the last one winning.
pub open spec fn parse_from(args: Seq<Seq<char>>, i: int, so_far: Parsed) -> Result<
    Parsed,
    ConfigError,
>
    decreases (if i < args.len() { args.len() - i } else { 0 }),
{
    if i < 0 || i >= args.len() {
        Ok(so_far)
    } else if is_flag(args[i]) {
        if !is_width_flag(args[i]) {
            Err(ConfigError::UnknownFlag { index: i as usize })
        } else if i + 1 >= args.len() {
            Err(ConfigError::MissingWidthValue { index: i as usize })
        } else {
            match width_of(args[i + 1]) {
                Some(width) => parse_from(args, i + 2, Parsed { width, ..so_far }),
                None => Err(ConfigError::InvalidWidth { index: (i + 1) as usize }),
            }
        }
    } else {
        parse_from(args, i + 1, Parsed { file_name: Some(args[i]), ..so_far })
    }
}

/// What a command line asks for. The argument at position 0 is the name of
/// the program and is not read.
pub open spec fn parse_args(args: Seq<Seq<char>>) -> Result<Parsed, ConfigError> {
    match parse_from(args, 1, Parsed { width: DEF_WIDTH, file_name: None }) {
        Ok(parsed) => if parsed.file_name is Some {
            Ok(parsed)
        } else {
            Err(ConfigError::MissingFile)
        },
        Err(e) => Err(e),
    }
}

/// Columns between two sampled pixels: the source width divided by the output
/// width, and at least one.
pub open spec fn sample_x_of(width: int, width_chars: int) -> int {
    if width / width_chars >= 1 {
        width / width_chars
    } else {
        1
    }
}

/// Rows between two sampled rows: the horizontal stride scaled by the height
/// over the width of the source, and at least one; one for a source without
/// width.
pub open spec fn sample_y_of(width: int, height: int, sample_x: int) -> int {
    if width >= 1 && sample_x * height / width >= 1 {
        sample_x * height / width
    } else {
        1
    }
}

/// Milliseconds between two frames at a rate of `frame_rate_millis` frames
/// per thousand seconds: at least one, and the largest number for a rate of
/// zero.
pub open spec fn frame_interval_of(frame_rate_millis: int) -> int {
    if frame_rate_millis == 0 {
        u64::MAX as int
    } else if 1_000_000int / frame_rate_millis >= 1 {
        1_000_000int / frame_rate_millis
    } else {
        1
    }
}

/// How many of `count` items are kept when every `stride`-th is, the first
/// included.
pub open spec fn sampled(count: int, stride: int) -> int {
    (count + stride - 1) / stride
}

/// Characters of the text frame of one whole picture: one per sampled pixel
/// and one row end per sampled row, or the largest number if that is less.
pub open spec fn frame_size_of(width: int, height: int, sample_x: int, sample_y: int) -> int {
    let size = (sampled(width, sample_x) + 1) * sampled(height, sample_y);
    if size <= usize::MAX {
        size
    } else {
        usize::MAX as int
    }
}

/// The texts of a list of arguments.
pub open spec fn texts(args: Seq<String>) -> Seq<Seq<char>> {
    Seq::new(args.len(), |i: int| args[i]@)
}

/// A longer run of digits writes no smaller number.
proof fn lemma_decimal_value_grows(digits: Seq<char>, k: int)
    requires
        0 <= k <= digits.len(),
        is_decimal(digits),
    ensures
        decimal_value(digits.subrange(0, k)) <= decimal_value(digits),
    decreases digits.len() - k,
{
    if k < digits.len() {
        let longer = digits.subrange(0, k + 1);
        assert(longer.drop_last() =~= digits.subrange(0, k));
        assert(is_digit(digits[k]));
        assert(longer.last() == digits[k]);
        lemma_decimal_value_grows(digits, k + 1);
    } else {
        assert(digits.subrange(0, k) =~= digits);
    }
}

/// Reads a width: a positive decimal number, with or without a leading `+`.
pub fn parse_width(text: &str) -> (width: Option<usize>)
    ensures
        width == width_of(text@),
{
    let len: usize = text.unicode_len();
    let first: usize = if len > 0 && text.get_char(0) == '+' {
        1
    } else {
        0
    };
    let ghost digits = width_digits(text@);
    if first == len {
        return None;
    }
    let mut acc: usize = 0;
    let mut i: usize = first;
    while i < len
        invariant
            first <= i <= len == text@.len(),
            digits == text@.subrange(first as int, len as int),
            digits == width_digits(text@),
            forall|j: int| 0 <= j < i - first ==> is_digit(#[trigger] digits[j]),
            acc == decimal_value(digits.subrange(0, i - first)),
        decreases len - i,
    {
        let c: char = text.get_char(i);
        assert(c == digits[i - first]);
        if !(c >= '0' && c <= '9') {
            return None;
        }
        let d: usize = (c as u32 - '0' as u32) as usize;
        let ghost longer = digits.subrange(0, i - first + 1);
        proof {
            assert(longer.drop_last() =~= digits.subrange(0, i - first));
            assert(longer.last() == c);
        }
        let next = match acc.checked_mul(10) {
            Some(tens) => tens.checked_add(d),
            None => None,
        };
        match next {
            Some(value) => {
                acc = value;
            },
            None => {
                proof {
                    assert(decimal_value(longer) > usize::MAX);
                    if is_decimal(digits) {
                        lemma_decimal_value_grows(digits, i - first + 1);
                    }
                }
                return None;
            },
        }
        i += 1;
    }
    assert(digits.subrange(0, i - first) =~= digits);
    if acc == 0 {
        None
    } else {
        Some(acc)
    }
}

/// Whether the text starts with `-`.
fn starts_as_flag(arg: &str) -> (b: bool)
    ensures
        b == is_flag(arg@),
{
    arg.unicode_len() > 0 && arg.get_char(0) == '-'
}

/// Whether the text starts with `--width` or `-w`.
fn starts_as_width_flag(arg: &str) -> (b: bool)
    ensures
        b == is_width_flag(arg@),
{
    let len: usize = arg.unicode_len();
    if len < 2 || arg.get_char(0) != '-' {
        assert(!starts_with(arg@, seq!['-', 'w']) && !starts_with(
            arg@,
            seq!['-', '-', 'w', 'i', 'd', 't', 'h'],
        )) by {
            if len >= 2 {
                assert(arg@.subrange(0, 2)[0] == arg@[0]);
            }
            if len >= 7 {
                assert(arg@.subrange(0, 7)[0] == arg@[0]);
            }
        }
        return false;
    }
    if arg.get_char(1) == 'w' {
        assert(arg@.subrange(0, 2) =~= seq!['-', 'w']);
        return true;
    }
    assert(!starts_with(arg@, seq!['-', 'w'])) by {
        assert(arg@.subrange(0, 2)[1] == arg@[1]);
    }
    if len >= 7 && arg.get_char(1) == '-' && arg.get_char(2) == 'w' && arg.get_char(3) == 'i'
        && arg.get_char(4) == 'd' && arg.get_char(5) == 't' && arg.get_char(6) == 'h' {
        assert(arg@.subrange(0, 7) =~= seq!['-', '-', 'w', 'i', 'd', 't', 'h']);
        true
    } else {
        assert(!starts_with(arg@, seq!['-', '-', 'w', 'i', 'd', 't', 'h'])) by {
            if len >= 7 {
                let head = arg@.subrange(0, 7);
                assert(head[1] == arg@[1] && head[2] == arg@[2] && head[3] == arg@[3] && head[4]
                    == arg@[4] && head[5] == arg@[5] && head[6] == arg@[6]);
            }
        }
        false
    }
}

impl ConfigError {
    /// The exit code of a process that stops on this error.
    pub fn exit_code(&self) -> (code: i32)
        ensures
            code == 1,
    {
        1
    }

    /// One line that says what is wrong.
    pub fn message(&self) -> (text: String)
        ensures
            text@ == match *self {
                ConfigError::MissingFile => "Provide a path to the file."@,
                ConfigError::UnknownFlag { .. } => "Unknown flag."@,
                ConfigError::MissingWidthValue { .. } => "Flag \"width\" needs a value."@,
                ConfigError::InvalidWidth { .. } => "Invalid value for flag \"width\"."@,
            },
    {
        match self {
            ConfigError::MissingFile => String::from_str("Provide a path to the file."),
            ConfigError::UnknownFlag { .. } => String::from_str("Unknown flag."),
            ConfigError::MissingWidthValue { .. } => String::from_str(
                "Flag \"width\" needs a value.",
            ),
            ConfigError::InvalidWidth { .. } => String::from_str(
                "Invalid value for flag \"width\".",
            ),
        }
    }
}

impl Config {
    /// Whether the configuration is complete: both strides and the output
    /// width are at least one, and the frame interval is positive.
    pub open spec fn wf(&self) -> bool {
        &&& self.width_chars >= 1
        &&& self.sampling_rate.0 >= 1
        &&& self.sampling_rate.1 >= 1
        &&& self.delta_t_ms >= 1
    }

    /// Reads a command line: the input file and, after `--width` or `-w`, the
    /// output width in characters. What the decoder has to report is left at
    /// zero, the frame rate at thirty.
    pub fn from_args(args: &[String]) -> (r: Result<Config, ConfigError>)
        ensures
            match parse_args(texts(args@)) {
                Ok(parsed) => r matches Ok(cfg) && Some(cfg.file_name@) == parsed.file_name
                    && cfg.width_chars == parsed.width && cfg.video_size == (0usize, 0usize)
                    && cfg.sampling_rate == (0usize, 0usize) && cfg.frame_rate == 30
                    && cfg.frame_size == 0 && cfg.delta_t_ms == 0,
                Err(e) => r == Err::<Config, ConfigError>(e),
            },
    {
        let ghost all = texts(args@);
        let mut width: usize = DEF_WIDTH;
        let mut file_name: Option<String> = None;
        let mut i: usize = 1;
        while i < args.len()
            invariant
                1 <= i,
                all == texts(args@),
                parse_from(
                    all,
                    i as int,
                    Parsed {
                        width,
                        file_name: match file_name {
                            Some(name) => Some(name@),
                            None => None,
                        },
                    },
                ) == parse_from(all, 1, Parsed { width: DEF_WIDTH, file_name: None }),
            decreases args.len() - i,
        {
            assert(all[i as int] == args@[i as int]@);
            let arg: &String = &args[i];
            if starts_as_flag(arg.as_str()) {
                if !starts_as_width_flag(arg.as_str()) {
                    return Err(ConfigError::UnknownFlag { index: i });
                }
                if args.len() - i <= 1 {
                    return Err(ConfigError::MissingWidthValue { index: i });
                }
                assert(all[i + 1] == args@[i + 1]@);
                match parse_width(args[i + 1].as_str()) {
                    Some(value) => {
                        width = value;
                    },
                    None => {
                        return Err(ConfigError::InvalidWidth { index: i + 1 });
                    },
                }
                i += 2;
            } else {
                file_name = Some(arg.clone());
                i += 1;
            }
        }
        match file_name {
            Some(name) => Ok(
                Config {
                    file_name: name,
                    video_size: (0, 0),
                    width_chars: width,
                    sampling_rate: (0, 0),
                    frame_rate: 30,
                    frame_size: 0,
                    delta_t_ms: 0,
                },
            ),
            None => Err(ConfigError::MissingFile),
        }
    }

    /// Completes the configuration with what the decoder reports: the size of
    /// the source, both sampling strides, the whole frames per second, the
    /// size of one text frame and the frame interval.
    pub fn add_decoder_info(&mut self, info: &DecoderInfo)
        requires
            old(self).width_chars >= 1,
        ensures
            final(self).file_name == old(self).file_name,
            final(self).width_chars == old(self).width_chars,
            final(self).video_size == (info.width as usize, info.height as usize),
            final(self).sampling_rate.0 == sample_x_of(
                info.width as int,
                old(self).width_chars as int,
            ),
            final(self).sampling_rate.1 == sample_y_of(
                info.width as int,
                info.height as int,
                final(self).sampling_rate.0 as int,
            ),
            final(self).frame_rate == info.frame_rate_millis / 1000,
            final(self).frame_size == frame_size_of(
                info.width as int,
                info.height as int,
                final(self).sampling_rate.0 as int,
                final(self).sampling_rate.1 as int,
            ),
            final(self).delta_t_ms == frame_interval_of(info.frame_rate_millis as int),
            final(self).wf(),
    {
        let width: u64 = info.width as u64;
        let height: u64 = info.height as u64;
        let by_width: u64 = width / (self.width_chars as u64);
        let sample_x: u64 = if by_width >= 1 {
            by_width
        } else {
            1
        };
        let mut sample_y: u64 = 1;
        if width >= 1 {
            assert(sample_x * height <= width * height && width * height <= 0xffff_ffff
                * 0xffff_ffff) by (nonlinear_arith)
                requires
                    sample_x <= width <= 0xffff_ffff,
                    height <= 0xffff_ffff,
            ;
            let by_height: u64 = sample_x * height / width;
            assert(by_height <= height) by (nonlinear_arith)
                requires
                    by_height == sample_x * height / (width as int),
                    sample_x <= width,
                    width >= 1,
            ;
            if by_height >= 1 {
                sample_y = by_height;
            }
        }
        assert(sample_x <= 0xffff_ffff && sample_y <= 0xffff_ffff);
        let columns: u64 = (width + sample_x - 1) / sample_x;
        let rows: u64 = (height + sample_y - 1) / sample_y;
        assert(columns <= 0xffff_ffff && rows <= 0xffff_ffff) by (nonlinear_arith)
            requires
                columns == (width + sample_x - 1) / (sample_x as int),
                rows == (height + sample_y - 1) / (sample_y as int),
                1 <= sample_x,
                1 <= sample_y,
                0 <= width <= 0xffff_ffff,
                0 <= height <= 0xffff_ffff,
        ;
        assert((columns + 1) * rows <= 0x1_0000_0000 * 0xffff_ffff) by (nonlinear_arith)
            requires
                columns <= 0xffff_ffff,
                rows <= 0xffff_ffff,
        ;
        let size: u64 = (columns + 1) * rows;
        self.video_size = (info.width as usize, info.height as usize);
        self.sampling_rate = (sample_x as usize, sample_y as usize);
        self.frame_rate = info.frame_rate_millis / 1000;
        self.frame_size = if size <= usize::MAX as u64 {
            size as usize
        } else {
            usize::MAX
        };
        self.delta_t_ms = if info.frame_rate_millis == 0 {
            u64::MAX
        } else if 1_000_000 / info.frame_rate_millis >= 1 {
            1_000_000 / info.frame_rate_millis
        } else {
            1
        };
    }
}

} // verus!
