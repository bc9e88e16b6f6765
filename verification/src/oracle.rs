use vstd::prelude::*;

use crate::error::Atrac3Error;
use crate::text::{decimal_chars, push_decimal};

verus! {

/// How the reference tool encodes a reference file: its bitrate and loop.
#[derive(Debug, Clone, PartialEq, Eq, Structural)]
pub struct ReferenceEncode {
    pub bitrate_kbps: u32,
    pub loop_start: Option<u32>,
    pub loop_end: Option<u32>,
    pub whole_loop: bool,
}

/// Where the reference tool and the files compared live.
#[derive(Debug, Clone)]
pub struct OracleConfig {
    pub tool_path: String,
    pub source_wav: Option<String>,
    pub candidate_at3: String,
    pub reference_at3: String,
    pub reference_encode: Option<ReferenceEncode>,
    pub decoded_dir: Option<String>,
}

/// The loop range the reference tool refuses, if the settings give one:
/// its start must come before its end, by at least 6143 samples.
pub open spec fn loop_check(settings: ReferenceEncode) -> Result<(), Atrac3Error> {
    match (settings.loop_start, settings.loop_end) {
        (Some(start), Some(end)) => if !(start < end) {
            Err(Atrac3Error::LoopStartNotBeforeEnd)
        } else if !(start + 6143 <= end) {
            Err(Atrac3Error::LoopRangeTooShort)
        } else {
            Ok(())
        },
        _ => Ok(()),
    }
}

/// The arguments the reference tool encodes with: `-e -br <kbps>`, then
/// `-wholeloop` or `-loop <start> <end>` when asked, then the source and
/// output files.
pub open spec fn encode_args(settings: ReferenceEncode, source: Seq<char>, output: Seq<char>) -> Seq<
    Seq<char>,
> {
    let head = seq!["-e"@, "-br"@, decimal_chars(settings.bitrate_kbps as nat)];
    let looping = if settings.whole_loop {
        seq!["-wholeloop"@]
    } else {
        match (settings.loop_start, settings.loop_end) {
            (Some(start), Some(end)) => seq![
                "-loop"@,
                decimal_chars(start as nat),
                decimal_chars(end as nat),
            ],
            _ => Seq::empty(),
        }
    };
    head + looping + seq![source, output]
}

/// A loop start before its end leaves room to add 6143 to it.
pub open spec fn loop_fits(settings: ReferenceEncode) -> bool {
    match (settings.loop_start, settings.loop_end) {
        (Some(start), Some(end)) => start < end ==> start + 6143 <= u32::MAX,
        _ => true,
    }
}

pub open spec fn strings_view(v: Seq<String>) -> Seq<Seq<char>> {
    v.map_values(|s: String| s@)
}

fn owned(s: &str) -> (r: String)
    ensures
        r@ == s@,
{
    String::from_str(s)
}

fn decimal(v: u32) -> (r: String)
    ensures
        r@ == decimal_chars(v as nat),
{
    let mut out = String::new();
    push_decimal(&mut out, v as u64);
    assert(out@ =~= decimal_chars(v as nat));
    out
}

/// The arguments to encode `source_wav` into `output_at3` with the
/// reference tool; a loop range the tool would refuse is refused here.
pub fn encode_reference(source_wav: &str, output_at3: &str, settings: &ReferenceEncode) -> (r: Result<
    Vec<String>,
    Atrac3Error,
>)
    requires
        loop_fits(*settings),
    ensures
        match loop_check(*settings) {
            Err(e) => r is Err && r->Err_0 == e,
            Ok(_) => r is Ok && strings_view(r->Ok_0@) == encode_args(
                *settings,
                source_wav@,
                output_at3@,
            ),
        },
{
    if let (Some(start), Some(end)) = (settings.loop_start, settings.loop_end) {
        if !(start < end) {
            return Err(Atrac3Error::LoopStartNotBeforeEnd);
        }
        if !(start + 6143 <= end) {
            return Err(Atrac3Error::LoopRangeTooShort);
        }
    }
    let mut args: Vec<String> = Vec::new();
    args.push(owned("-e"));
    args.push(owned("-br"));
    args.push(decimal(settings.bitrate_kbps));
    if settings.whole_loop {
        args.push(owned("-wholeloop"));
    } else if let (Some(start), Some(end)) = (settings.loop_start, settings.loop_end) {
        args.push(owned("-loop"));
        args.push(decimal(start));
        args.push(decimal(end));
    }
    args.push(owned(source_wav));
    args.push(owned(output_at3));
    assert(strings_view(args@) =~= encode_args(*settings, source_wav@, output_at3@));
    Ok(args)
}

/// The arguments to decode `input_at3` into `output_wav` with the
/// reference tool: `-d`, then the two files.
pub fn decode_at3(input_at3: &str, output_wav: &str) -> (args: Vec<String>)
    ensures
        strings_view(args@) == seq!["-d"@, input_at3@, output_wav@],
{
    let mut args: Vec<String> = Vec::new();
    args.push(owned("-d"));
    args.push(owned(input_at3));
    args.push(owned(output_wav));
    assert(strings_view(args@) =~= seq!["-d"@, input_at3@, output_wav@]);
    args
}

} // verus!
