//! Source configuration strings.
//!
//! One animation source is configured by a colon-delimited string
//! `width:height:x:y:bitmap_dir:fps`. The four leading fields are
//! integers giving the target rectangle, `bitmap_dir` names the
//! directory of bitmap frames, and `fps` is the source's native frame
//! rate as a positive decimal number. A malformed or missing field, a
//! non-positive dimension and a non-positive rate are configuration
//! errors, reported before any other resource is touched.

use crate::frame::FrameBuffer;
use crate::rate::Rate;
use crate::text::{
    all_digits, check_all_digits, digits_val, find_char, first_index_of, lemma_digits_val_nonneg,
    lemma_digits_val_upper, lemma_first_index_of, lemma_pow10_pos, parse_digits_capped, pow10,
    split_colon, split_colon_ranges, str_chars,
};
use vstd::prelude::*;
use vstd::string::StrSliceExecFns;

verus! {

/// The six fields of a source configuration string, in order.
#[derive(Clone, Copy, Debug, PartialEq, Eq, Structural)]
pub enum ConfigField {
    Width,
    Height,
    OffsetX,
    OffsetY,
    BitmapDir,
    Fps,
}

/// Why a configuration was rejected.
#[derive(Clone, Copy, Debug, PartialEq, Eq, Structural)]
pub enum ConfigError {
    /// The configuration string ended before this field.
    MissingField { field: ConfigField },
    /// This field does not parse.
    MalformedField { field: ConfigField },
    /// A rectangle dimension is zero or negative.
    NonPositiveDimension { field: ConfigField },
    /// The frame rate is zero.
    NonPositiveRate,
    /// A timeline needs at least one source.
    NoSources,
    /// A source has an empty frame list.
    EmptyFrames { source: usize },
    /// The output frame count does not fit the machine's word size.
    FrameCountOverflow,
    /// A `~`-relative path was given but no home directory is known.
    NoHomeDirectory,
}

/// The field that a string with `k` fields misses first.
pub open spec fn field_of(k: int) -> ConfigField {
    if k <= 0 {
        ConfigField::Width
    } else if k == 1 {
        ConfigField::Height
    } else if k == 2 {
        ConfigField::OffsetX
    } else if k == 3 {
        ConfigField::OffsetY
    } else if k == 4 {
        ConfigField::BitmapDir
    } else {
        ConfigField::Fps
    }
}

/// A signed integer field: an optional sign followed by at least one
/// decimal digit.
pub open spec fn int_text(s: Seq<char>) -> bool {
    if s.len() == 0 {
        false
    } else if s[0] == '-' || s[0] == '+' {
        s.len() >= 2 && all_digits(s.skip(1))
    } else {
        all_digits(s)
    }
}

/// The value denoted by a signed integer field.
pub open spec fn int_text_val(s: Seq<char>) -> int {
    if s[0] == '-' {
        -digits_val(s.skip(1))
    } else if s[0] == '+' {
        digits_val(s.skip(1))
    } else {
        digits_val(s)
    }
}

/// What parsing a field as an `i32` yields: the denoted value, or
/// nothing when the field is malformed or out of range.
pub open spec fn parse_i32_spec(s: Seq<char>) -> Option<int> {
    if int_text(s) && i32::MIN <= int_text_val(s) <= i32::MAX {
        Some(int_text_val(s))
    } else {
        None
    }
}

/// Parse `v[from..to]` as an `i32`.
pub fn parse_i32(v: &Vec<char>, from: usize, to: usize) -> (r: Option<i32>)
    requires
        from <= to <= v@.len(),
    ensures
        ({
            let w = v@.subrange(from as int, to as int);
            match r {
                Some(n) => parse_i32_spec(w) == Some(n as int),
                None => parse_i32_spec(w) is None,
            }
        }),
{
    let ghost w = v@.subrange(from as int, to as int);
    if to == from {
        return None;
    }
    let first = v[from];
    assert(w[0] == first);
    if first == '-' || first == '+' {
        if to - from < 2 {
            return None;
        }
        proof {
            assert(w.skip(1) =~= v@.subrange(from + 1, to as int));
        }
        if !check_all_digits(v, from + 1, to) {
            return None;
        }
        let neg = first == '-';
        let max: u64 = if neg {
            2147483648
        } else {
            2147483647
        };
        match parse_digits_capped(v, from + 1, to, max) {
            None => {
                proof {
                    lemma_digits_val_nonneg(w.skip(1));
                }
                None
            },
            Some(n) => {
                if neg {
                    if n == 2147483648 {
                        Some(i32::MIN)
                    } else {
                        Some(-(n as i32))
                    }
                } else {
                    Some(n as i32)
                }
            },
        }
    } else {
        if !check_all_digits(v, from, to) {
            return None;
        }
        match parse_digits_capped(v, from, to, 2147483647) {
            None => {
                proof {
                    lemma_digits_val_nonneg(w);
                }
                None
            },
            Some(n) => Some(n as i32),
        }
    }
}

/// Position of the decimal point in a rate field, `-1` when absent.
pub open spec fn rate_dot(s: Seq<char>) -> int {
    first_index_of(s, '.', 0)
}

/// The digits before the decimal point.
pub open spec fn rate_int_part(s: Seq<char>) -> Seq<char> {
    if rate_dot(s) < 0 {
        s
    } else {
        s.take(rate_dot(s))
    }
}

/// The digits after the decimal point.
pub open spec fn rate_frac_part(s: Seq<char>) -> Seq<char> {
    if rate_dot(s) < 0 {
        Seq::empty()
    } else {
        s.skip(rate_dot(s) + 1)
    }
}

/// A frame-rate field: decimal digits with at most one decimal point
/// and at least one character besides the point.
pub open spec fn rate_text(s: Seq<char>) -> bool {
    &&& s.len() >= 1
    &&& rate_dot(s) >= 0 ==> s.len() >= 2
    &&& all_digits(rate_int_part(s))
    &&& all_digits(rate_frac_part(s))
}

/// Numerator of the exact rational value of a rate field.
pub open spec fn rate_num(s: Seq<char>) -> int {
    digits_val(rate_int_part(s)) * pow10(rate_frac_part(s).len()) + digits_val(rate_frac_part(s))
}

/// Denominator of the exact rational value of a rate field.
pub open spec fn rate_den(s: Seq<char>) -> int {
    pow10(rate_frac_part(s).len())
}

/// What parsing a rate field yields: its exact value as a fraction, or
/// the configuration error that rejects it. A field that does not fit
/// the fraction's machine words counts as malformed.
pub open spec fn parse_rate_spec(s: Seq<char>) -> Result<(int, int), ConfigError> {
    if !rate_text(s) {
        Err(ConfigError::MalformedField { field: ConfigField::Fps })
    } else if rate_den(s) > u32::MAX || rate_num(s) > u32::MAX {
        Err(ConfigError::MalformedField { field: ConfigField::Fps })
    } else if rate_num(s) == 0 {
        Err(ConfigError::NonPositiveRate)
    } else {
        Ok((rate_num(s), rate_den(s)))
    }
}

/// `pow10` is monotone in the exponent.
proof fn lemma_pow10_mono(a: nat, b: nat)
    requires
        a <= b,
    ensures
        pow10(a) <= pow10(b),
    decreases b,
{
    if a < b {
        lemma_pow10_mono(a, (b - 1) as nat);
        lemma_pow10_pos((b - 1) as nat);
    }
}

/// The first few powers of ten, unfolded.
proof fn lemma_pow10_vals()
    ensures
        pow10(0) == 1,
        pow10(9) == 1_000_000_000,
        pow10(10) == 10_000_000_000,
{
    assert(pow10(0) == 1);
    assert(pow10(1) == 10);
    assert(pow10(2) == 100);
    assert(pow10(3) == 1000);
    assert(pow10(4) == 10000);
    assert(pow10(5) == 100000);
    assert(pow10(6) == 1000000);
    assert(pow10(7) == 10000000);
    assert(pow10(8) == 100000000);
    assert(pow10(9) == 1000000000);
    assert(pow10(10) == 10000000000);
}

/// Ten to the power `k`, for small `k`.
fn pow10_exec(k: usize) -> (r: u32)
    requires
        k <= 9,
    ensures
        r == pow10(k as nat),
{
    proof {
        lemma_pow10_vals();
    }
    let mut r: u32 = 1;
    let mut j: usize = 0;
    while j < k
        invariant
            j <= k <= 9,
            r == pow10(j as nat),
            pow10(9) == 1_000_000_000,
        decreases k - j,
    {
        proof {
            lemma_pow10_mono((j + 1) as nat, 9);
        }
        r = r * 10;
        j += 1;
    }
    r
}

/// Parse `v[from..to]` as a frame rate.
pub fn parse_rate(v: &Vec<char>, from: usize, to: usize) -> (r: Result<Rate, ConfigError>)
    requires
        from <= to <= v@.len(),
    ensures
        ({
            let w = v@.subrange(from as int, to as int);
            match r {
                Ok(rt) => parse_rate_spec(w) == Ok::<(int, int), ConfigError>(
                    (rt.num as int, rt.den as int),
                ) && rt.valid(),
                Err(e) => parse_rate_spec(w) == Err::<(int, int), ConfigError>(e),
            }
        }),
{
    let ghost w = v@.subrange(from as int, to as int);
    proof {
        lemma_pow10_vals();
    }
    if to == from {
        return Err(ConfigError::MalformedField { field: ConfigField::Fps });
    }
    match find_char(v, from, to, '.') {
        None => {
            // No decimal point: the whole field is the integer part.
            assert(rate_int_part(w) == w && rate_frac_part(w) =~= Seq::<char>::empty());
            if !check_all_digits(v, from, to) {
                return Err(ConfigError::MalformedField { field: ConfigField::Fps });
            }
            match parse_digits_capped(v, from, to, 4294967295) {
                None => {
                    proof {
                        lemma_digits_val_nonneg(w);
                    }
                    assert(rate_num(w) == digits_val(w));
                    Err(ConfigError::MalformedField { field: ConfigField::Fps })
                },
                Some(n) => {
                    assert(rate_num(w) == digits_val(w));
                    if n == 0 {
                        Err(ConfigError::NonPositiveRate)
                    } else {
                        Ok(Rate { num: n as u32, den: 1 })
                    }
                },
            }
        },
        Some(p) => {
            let ghost d = p - from;
            assert(rate_dot(w) == d);
            proof {
                lemma_first_index_of(w, '.', 0);
                assert(w.take(d) =~= v@.subrange(from as int, p as int));
                assert(w.skip(d + 1) =~= v@.subrange(p + 1, to as int));
            }
            if to - from < 2 {
                return Err(ConfigError::MalformedField { field: ConfigField::Fps });
            }
            if !check_all_digits(v, from, p) {
                return Err(ConfigError::MalformedField { field: ConfigField::Fps });
            }
            if !check_all_digits(v, p + 1, to) {
                return Err(ConfigError::MalformedField { field: ConfigField::Fps });
            }
            let fraclen = to - p - 1;
            assert(rate_frac_part(w).len() == fraclen);
            if fraclen > 9 {
                proof {
                    lemma_pow10_mono(10, fraclen as nat);
                }
                return Err(ConfigError::MalformedField { field: ConfigField::Fps });
            }
            let den = pow10_exec(fraclen);
            proof {
                lemma_pow10_pos(fraclen as nat);
            }
            assert(den == rate_den(w) && den >= 1);
            let int_val = match parse_digits_capped(v, from, p, 4294967295) {
                None => {
                    proof {
                        lemma_digits_val_nonneg(w.take(d));
                        lemma_digits_val_nonneg(w.skip(d + 1));
                        vstd::arithmetic::mul::lemma_mul_increases(
                            den as int,
                            digits_val(w.take(d)),
                        );
                        vstd::arithmetic::mul::lemma_mul_is_commutative(
                            den as int,
                            digits_val(w.take(d)),
                        );
                        assert(rate_text(w));
                        assert(digits_val(w.take(d)) > u32::MAX);
                        assert(digits_val(w.take(d)) * (den as int) >= digits_val(w.take(d)));
                        assert(rate_num(w) == digits_val(w.take(d)) * (den as int) + digits_val(
                            w.skip(d + 1),
                        ));
                        assert(rate_num(w) > u32::MAX);
                    }
                    return Err(ConfigError::MalformedField { field: ConfigField::Fps });
                },
                Some(n) => n,
            };
            let frac_val = match parse_digits_capped(v, p + 1, to, 4294967295) {
                None => {
                    proof {
                        lemma_digits_val_upper(w.skip(d + 1));
                        lemma_pow10_mono(fraclen as nat, 9);
                        assert(false);
                    }
                    return Err(ConfigError::MalformedField { field: ConfigField::Fps });
                },
                Some(n) => n,
            };
            proof {
                lemma_pow10_mono(fraclen as nat, 9);
                vstd::arithmetic::mul::lemma_mul_upper_bound(
                    int_val as int,
                    0xffff_ffff,
                    den as int,
                    1_000_000_000,
                );
            }
            let num_wide: u128 = (int_val as u128) * (den as u128) + (frac_val as u128);
            assert(num_wide == rate_num(w));
            if num_wide > 4294967295 {
                Err(ConfigError::MalformedField { field: ConfigField::Fps })
            } else if num_wide == 0 {
                Err(ConfigError::NonPositiveRate)
            } else {
                Ok(Rate { num: num_wide as u32, den })
            }
        },
    }
}

/// One animation source: its decoded frames, native frame rate, and
/// target rectangle within the monitor canvas.
#[derive(Clone, Debug)]
pub struct DisplayContext {
    pub width: i32,
    pub height: i32,
    pub x: i32,
    pub y: i32,
    pub bitmap_dir: String,
    pub fps: Rate,
    pub images: Vec<FrameBuffer>,
}

/// The abstract content of a source configuration.
pub struct ConfigView {
    pub width: int,
    pub height: int,
    pub x: int,
    pub y: int,
    pub bitmap_dir: Seq<char>,
    pub fps_num: int,
    pub fps_den: int,
}

impl View for DisplayContext {
    type V = ConfigView;

    open spec fn view(&self) -> ConfigView {
        ConfigView {
            width: self.width as int,
            height: self.height as int,
            x: self.x as int,
            y: self.y as int,
            bitmap_dir: self.bitmap_dir@,
            fps_num: self.fps.num as int,
            fps_den: self.fps.den as int,
        }
    }
}

/// What parsing a whole configuration string yields. Fields are checked
/// in declaration order; the first offending field decides the error.
pub open spec fn parse_config(s: Seq<char>) -> Result<ConfigView, ConfigError> {
    let fs = split_colon(s);
    if fs.len() < 6 {
        Err(ConfigError::MissingField { field: field_of(fs.len() as int) })
    } else if parse_i32_spec(fs[0]) is None {
        Err(ConfigError::MalformedField { field: ConfigField::Width })
    } else if parse_i32_spec(fs[0])->Some_0 <= 0 {
        Err(ConfigError::NonPositiveDimension { field: ConfigField::Width })
    } else if parse_i32_spec(fs[1]) is None {
        Err(ConfigError::MalformedField { field: ConfigField::Height })
    } else if parse_i32_spec(fs[1])->Some_0 <= 0 {
        Err(ConfigError::NonPositiveDimension { field: ConfigField::Height })
    } else if parse_i32_spec(fs[2]) is None {
        Err(ConfigError::MalformedField { field: ConfigField::OffsetX })
    } else if parse_i32_spec(fs[3]) is None {
        Err(ConfigError::MalformedField { field: ConfigField::OffsetY })
    } else {
        match parse_rate_spec(fs[5]) {
            Err(e) => Err(e),
            Ok(nd) => Ok(
                ConfigView {
                    width: parse_i32_spec(fs[0])->Some_0,
                    height: parse_i32_spec(fs[1])->Some_0,
                    x: parse_i32_spec(fs[2])->Some_0,
                    y: parse_i32_spec(fs[3])->Some_0,
                    bitmap_dir: fs[4],
                    fps_num: nd.0,
                    fps_den: nd.1,
                },
            ),
        }
    }
}

impl DisplayContext {
    /// A parsed source has positive dimensions, a positive rate, and no
    /// frames loaded yet.
    pub open spec fn parsed_wf(self) -> bool {
        &&& self.width > 0
        &&& self.height > 0
        &&& self.fps.valid()
    }

    /// Parse a `width:height:x:y:bitmap_dir:fps` configuration string.
    pub fn from_str(s: &str) -> (r: Result<DisplayContext, ConfigError>)
        ensures
            match r {
                Ok(ctx) => {
                    &&& parse_config(s@) == Ok::<ConfigView, ConfigError>(ctx@)
                    &&& ctx.parsed_wf()
                    &&& ctx.images@.len() == 0
                },
                Err(e) => parse_config(s@) == Err::<ConfigView, ConfigError>(e),
            },
    {
        let chars = str_chars(s);
        let fields = split_colon_ranges(&chars);
        let ghost fs = split_colon(s@);
        if fields.len() < 6 {
            return Err(
                ConfigError::MissingField {
                    field: if fields.len() == 0 {
                        ConfigField::Width
                    } else if fields.len() == 1 {
                        ConfigField::Height
                    } else if fields.len() == 2 {
                        ConfigField::OffsetX
                    } else if fields.len() == 3 {
                        ConfigField::OffsetY
                    } else if fields.len() == 4 {
                        ConfigField::BitmapDir
                    } else {
                        ConfigField::Fps
                    },
                },
            );
        }
        let (f0s, f0e) = (fields[0].0, fields[0].1);
        let (f1s, f1e) = (fields[1].0, fields[1].1);
        let (f2s, f2e) = (fields[2].0, fields[2].1);
        let (f3s, f3e) = (fields[3].0, fields[3].1);
        let (f4s, f4e) = (fields[4].0, fields[4].1);
        let (f5s, f5e) = (fields[5].0, fields[5].1);
        let width = match parse_i32(&chars, f0s, f0e) {
            Some(n) => n,
            None => {
                return Err(ConfigError::MalformedField { field: ConfigField::Width });
            },
        };
        if width <= 0 {
            return Err(ConfigError::NonPositiveDimension { field: ConfigField::Width });
        }
        let height = match parse_i32(&chars, f1s, f1e) {
            Some(n) => n,
            None => {
                return Err(ConfigError::MalformedField { field: ConfigField::Height });
            },
        };
        if height <= 0 {
            return Err(ConfigError::NonPositiveDimension { field: ConfigField::Height });
        }
        let x = match parse_i32(&chars, f2s, f2e) {
            Some(n) => n,
            None => {
                return Err(ConfigError::MalformedField { field: ConfigField::OffsetX });
            },
        };
        let y = match parse_i32(&chars, f3s, f3e) {
            Some(n) => n,
            None => {
                return Err(ConfigError::MalformedField { field: ConfigField::OffsetY });
            },
        };
        let fps = match parse_rate(&chars, f5s, f5e) {
            Ok(rt) => rt,
            Err(e) => {
                return Err(e);
            },
        };
        let bitmap_dir = s.substring_char(f4s, f4e).to_owned();
        assert(bitmap_dir@ == fs[4]);
        Ok(DisplayContext { width, height, x, y, bitmap_dir, fps, images: Vec::new() })
    }
}

} // verus!
