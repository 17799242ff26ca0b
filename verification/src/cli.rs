use vstd::prelude::*;
use vstd::string::StringSliceAdditionalSpecFns;

verus! {

/// ASCII codes of the bytes the parser inspects.
pub const BYTE_PLUS: u8 = 43;

pub const BYTE_ZERO: u8 = 48;

pub const BYTE_NINE: u8 = 57;

pub const BYTE_LOWER_A: u8 = 97;

pub const BYTE_LOWER_Z: u8 = 122;

pub const BYTE_UPPER_A: u8 = 65;

pub const BYTE_UPPER_Z: u8 = 90;

pub const BYTE_LOWER_X: u8 = 120;

pub const BYTE_LOWER_O: u8 = 111;

pub const BYTE_LOWER_B: u8 = 98;

/// The command-line surface: a single subcommand.
pub struct Cli {
    pub commands: Commands,
}

/// The two subcommands: convert (and optionally deploy) an ELF, or list the
/// known UF2 family presets.
pub enum Commands {
    Deploy {
        /// UF2 family short name or numeric literal.
        family: String,
        /// Optional override for the base address; parsed with `parse_int`.
        base_addr: Option<String>,
        /// Deploy destination: an explicit directory, or "auto" to discover
        /// a bootloader volume. `None` skips deployment.
        path: Option<String>,
        /// How many resolve-and-copy attempts the deployer may make.
        deploy_retry_count: u32,
        /// Path of the input ELF file.
        elf_path: String,
    },
    ListFamilies,
}

/// The errors that `parse_int` can report.
#[derive(Clone, Copy, Debug, PartialEq, Eq, Structural)]
pub enum ParseIntError {
    /// The input is empty.
    Empty,
    /// A character is not a digit of the selected radix, or the input is a
    /// bare sign.
    InvalidDigit,
    /// The value does not fit in 32 bits.
    PosOverflow,
}

/// The numeric value of one digit byte under `radix`, or `None` where the
/// byte is no digit of that radix.
pub open spec fn spec_digit(b: u8, radix: u32) -> Option<u32> {
    let v: int = if BYTE_ZERO <= b && b <= BYTE_NINE {
        b - BYTE_ZERO
    } else if BYTE_LOWER_A <= b && b <= BYTE_LOWER_Z {
        b - BYTE_LOWER_A + 10
    } else if BYTE_UPPER_A <= b && b <= BYTE_UPPER_Z {
        b - BYTE_UPPER_A + 10
    } else {
        -1
    };
    if 0 <= v && v < radix {
        Some(v as u32)
    } else {
        None
    }
}

/// Every byte of `s` is a digit of `radix`.
pub open spec fn spec_digits_valid(s: Seq<u8>, radix: u32) -> bool {
    forall|i: int| 0 <= i < s.len() ==> #[trigger] spec_digit(s[i], radix) is Some
}

/// The value of a digit string read most-significant first.
pub open spec fn spec_digits_value(s: Seq<u8>, radix: u32) -> int
    decreases s.len(),
{
    if s.len() == 0 {
        0
    } else {
        spec_digits_value(s.drop_last(), radix) * radix + (match spec_digit(s.last(), radix) {
            Some(d) => d as int,
            None => 0,
        })
    }
}

/// What parsing a digit string of `radix` yields: the digits after an
/// optional leading plus sign must be non-empty, all valid, and denote a
/// value that fits in 32 bits.
pub open spec fn spec_parse_radix(s: Seq<u8>, radix: u32) -> Result<u32, ParseIntError> {
    if s.len() == 0 {
        Err(ParseIntError::Empty)
    } else {
        let digits = if s[0] == BYTE_PLUS {
            s.drop_first()
        } else {
            s
        };
        if digits.len() == 0 {
            Err(ParseIntError::InvalidDigit)
        } else if !spec_digits_valid(digits, radix) {
            Err(ParseIntError::InvalidDigit)
        } else if spec_digits_value(digits, radix) > u32::MAX {
            Err(ParseIntError::PosOverflow)
        } else {
            Ok(spec_digits_value(digits, radix) as u32)
        }
    }
}

/// What `parse_int` yields: a `0x`, `0o` or `0b` prefix selects radix 16, 8
/// or 2 for the rest; otherwise the whole string is read in radix 10.
pub open spec fn spec_parse_int(s: Seq<u8>) -> Result<u32, ParseIntError> {
    if s.len() >= 2 && s[0] == BYTE_ZERO && s[1] == BYTE_LOWER_X {
        spec_parse_radix(s.skip(2), 16)
    } else if s.len() >= 2 && s[0] == BYTE_ZERO && s[1] == BYTE_LOWER_O {
        spec_parse_radix(s.skip(2), 8)
    } else if s.len() >= 2 && s[0] == BYTE_ZERO && s[1] == BYTE_LOWER_B {
        spec_parse_radix(s.skip(2), 2)
    } else {
        spec_parse_radix(s, 10)
    }
}

/// The numeric value of the digit byte `b` under `radix`, where it has one.
fn digit(b: u8, radix: u32) -> (r: Option<u32>)
    ensures
        r == spec_digit(b, radix),
{
    let v: u32 = if BYTE_ZERO <= b && b <= BYTE_NINE {
        (b - BYTE_ZERO) as u32
    } else if BYTE_LOWER_A <= b && b <= BYTE_LOWER_Z {
        (b - BYTE_LOWER_A) as u32 + 10
    } else if BYTE_UPPER_A <= b && b <= BYTE_UPPER_Z {
        (b - BYTE_UPPER_A) as u32 + 10
    } else {
        u32::MAX
    };
    if v < radix {
        Some(v)
    } else {
        None
    }
}

/// Reads the digit string `b[start..]` in the given radix.
#[verifier::loop_isolation(false)]
fn parse_radix(b: &[u8], start: usize, radix: u32) -> (r: Result<u32, ParseIntError>)
    requires
        2 <= radix <= 16,
        start <= b@.len(),
    ensures
        r == spec_parse_radix(b@.skip(start as int), radix),
{
    let ghost s = b@.skip(start as int);
    let n = b.len();
    if start >= n {
        return Err(ParseIntError::Empty);
    }
    let first = b[start];
    let idx: usize = if first == BYTE_PLUS {
        start + 1
    } else {
        start
    };
    let ghost digits = b@.skip(idx as int);
    proof {
        if first == BYTE_PLUS {
            assert(digits =~= s.drop_first());
        } else {
            assert(digits =~= s);
        }
    }
    if idx >= n {
        return Err(ParseIntError::InvalidDigit);
    }
    let mut acc: u32 = 0;
    let mut overflowed = false;
    let mut k: usize = idx;
    while k < n
        invariant
            idx <= k <= n,
            n == b@.len(),
            2 <= radix <= 16,
            digits == b@.skip(idx as int),
            forall|j: int| idx <= j < k ==> #[trigger] spec_digit(b@[j], radix) is Some,
            !overflowed ==> acc == spec_digits_value(b@.subrange(idx as int, k as int), radix),
            overflowed ==> spec_digits_value(b@.subrange(idx as int, k as int), radix) > u32::MAX,
        decreases n - k,
    {
        let ghost pre = b@.subrange(idx as int, k as int);
        let ghost cur = b@.subrange(idx as int, k as int + 1);
        proof {
            assert(cur.drop_last() =~= pre);
            assert(cur.last() == b@[k as int]);
        }
        match digit(b[k], radix) {
            None => {
                proof {
                    assert(s.len() == n - start);
                    assert(s[0] == b@[start as int]);
                    assert(digits[k - idx] == b@[k as int]);
                    assert(spec_digit(digits[k - idx], radix) is None);
                    assert(!spec_digits_valid(digits, radix));
                }
                return Err(ParseIntError::InvalidDigit);
            },
            Some(d) => {
                if !overflowed {
                    proof {
                        assert((acc as int) * (radix as int) + (d as int) <= u64::MAX) by (nonlinear_arith)
                            requires
                                acc <= u32::MAX,
                                radix <= 16,
                                d <= u32::MAX,
                        ;
                    }
                    let wide: u64 = (acc as u64) * (radix as u64) + (d as u64);
                    if wide > u32::MAX as u64 {
                        overflowed = true;
                    } else {
                        acc = wide as u32;
                    }
                } else {
                    proof {
                        let v = spec_digits_value(pre, radix);
                        assert(v * radix >= v) by (nonlinear_arith)
                            requires
                                v > u32::MAX,
                                radix >= 2,
                        ;
                    }
                }
            },
        }
        k += 1;
    }
    proof {
        assert(b@.subrange(idx as int, n as int) =~= digits);
        assert forall|j: int| 0 <= j < digits.len() implies #[trigger] spec_digit(
            digits[j],
            radix,
        ) is Some by {
            assert(digits[j] == b@[idx + j]);
        }
    }
    if overflowed {
        return Err(ParseIntError::PosOverflow);
    }
    Ok(acc)
}

/// Reads a 32-bit unsigned integer from a string: `0x`, `0o` and `0b`
/// prefixes select hexadecimal, octal and binary; anything else is decimal.
pub fn parse_int(s: &str) -> (r: Result<u32, ParseIntError>)
    ensures
        r == spec_parse_int(s.spec_bytes()),
{
    let b = s.as_bytes();
    proof {
        assert(b@.skip(0) =~= b@);
    }
    if b.len() >= 2 && b[0] == BYTE_ZERO && b[1] == BYTE_LOWER_X {
        parse_radix(b, 2, 16)
    } else if b.len() >= 2 && b[0] == BYTE_ZERO && b[1] == BYTE_LOWER_O {
        parse_radix(b, 2, 8)
    } else if b.len() >= 2 && b[0] == BYTE_ZERO && b[1] == BYTE_LOWER_B {
        parse_radix(b, 2, 2)
    } else {
        parse_radix(b, 0, 10)
    }
}

/// Picks the family identifier: a preset hit wins, anything else is read as
/// a numeric literal.
pub fn resolve_family_id(preset: Option<u32>, family: &str) -> (r: Result<u32, ParseIntError>)
    ensures
        preset matches Some(id) ==> r == Ok::<u32, ParseIntError>(id),
        preset is None ==> r == spec_parse_int(family.spec_bytes()),
{
    match preset {
        Some(id) => Ok(id),
        None => parse_int(family),
    }
}

} // verus!

