//! Decisions of the preview harnesses: what a demo's command line asks for,
//! and how interleaved audio is laid out as stereo frames.
use vstd::prelude::*;

verus! {

/// What an effect demo was asked to do.
#[derive(Clone, PartialEq, Debug)]
pub enum EffectDemo {
    /// No arguments: play a tone through the effect, live.
    Tone,
    /// One argument: play this WAV file through the effect, live and looped.
    Play(String),
    /// Two arguments: render the first WAV file through the effect into the second.
    Render(String, String),
}

/// What an analyzer demo was asked to do.
#[derive(Clone, PartialEq, Debug)]
pub enum AnalyzerDemo {
    /// Listen on the default input device, or on the named one.
    Live(Option<String>),
    /// List the input devices.
    List,
    /// Analyze this WAV file offline.
    File(String),
}

/// The effect demo's command for `args` (the arguments after the program
/// name); `None` asks for the usage text.
pub open spec fn spec_effect_demo(args: Seq<String>) -> Option<EffectDemo> {
    if args.len() == 0 {
        Some(EffectDemo::Tone)
    } else if args.len() == 1 {
        Some(EffectDemo::Play(args[0]))
    } else if args.len() == 2 {
        Some(EffectDemo::Render(args[0], args[1]))
    } else {
        None
    }
}

/// Decide what an effect demo does with its arguments (see
/// [`spec_effect_demo`]).
pub fn effect_demo(args: Vec<String>) -> (c: Option<EffectDemo>)
    ensures
        c == spec_effect_demo(args@),
{
    let mut args = args;
    let ghost a = args@;
    let n = args.len();
    if n == 0 {
        Some(EffectDemo::Tone)
    } else if n == 1 {
        let input = args.pop().unwrap();
        Some(EffectDemo::Play(input))
    } else if n == 2 {
        let output = args.pop().unwrap();
        let input = args.pop().unwrap();
        assert(input == a[0] && output == a[1]);
        Some(EffectDemo::Render(input, output))
    } else {
        None
    }
}

/// The analyzer demo's command for `args`; `None` asks for the usage text.
/// `--list` alone lists devices, `--input <name>` picks a device, any other
/// single argument is a file.
pub open spec fn spec_analyzer_demo(args: Seq<String>) -> Option<AnalyzerDemo> {
    if args.len() == 0 {
        Some(AnalyzerDemo::Live(None))
    } else if args.len() == 1 {
        if args[0]@ == "--list"@ {
            Some(AnalyzerDemo::List)
        } else {
            Some(AnalyzerDemo::File(args[0]))
        }
    } else if args.len() == 2 && args[0]@ == "--input"@ {
        Some(AnalyzerDemo::Live(Some(args[1])))
    } else {
        None
    }
}

/// Decide what an analyzer demo does with its arguments (see
/// [`spec_analyzer_demo`]).
pub fn analyzer_demo(args: Vec<String>) -> (c: Option<AnalyzerDemo>)
    ensures
        c == spec_analyzer_demo(args@),
{
    let mut args = args;
    let ghost a = args@;
    let n = args.len();
    if n == 0 {
        Some(AnalyzerDemo::Live(None))
    } else if n == 1 {
        let arg = args.pop().unwrap();
        if arg == String::from_str("--list") {
            Some(AnalyzerDemo::List)
        } else {
            Some(AnalyzerDemo::File(arg))
        }
    } else if n == 2 {
        let name = args.pop().unwrap();
        let flag = args.pop().unwrap();
        assert(flag == a[0] && name == a[1]);
        if flag == String::from_str("--input") {
            Some(AnalyzerDemo::Live(Some(name)))
        } else {
            None
        }
    } else {
        None
    }
}

/// The inputs on which [`interleaved_to_frames`] is defined: at least one
/// channel, and with two or more channels a trailing partial frame (if any)
/// still holds both a left and a right sample.
pub open spec fn frames_defined(len: nat, channels: nat) -> bool {
    channels > 0 && (channels >= 2 ==> len % channels != 1)
}

/// Whether [`interleaved_to_frames`] is defined for `len` samples of
/// `channels` channels.
pub fn frames_ok(len: usize, channels: usize) -> (ok: bool)
    ensures
        ok == frames_defined(len as nat, channels as nat),
{
    channels > 0 && (channels < 2 || len % channels != 1)
}

/// Number of frames in `len` interleaved samples (a trailing partial frame counts).
pub open spec fn frame_count(len: nat, channels: nat) -> nat {
    if len % channels == 0 {
        len / channels
    } else {
        len / channels + 1
    }
}

/// Lay interleaved samples out as stereo frames: a mono stream is duplicated
/// to both sides, and of more than two channels the first two are kept.
pub fn interleaved_to_frames<T: Copy>(samples: &Vec<T>, channels: usize) -> (frames: Vec<(T, T)>)
    requires
        frames_defined(samples@.len(), channels as nat),
    ensures
        frames@.len() == frame_count(samples@.len(), channels as nat),
        forall|i: int| 0 <= i < frames@.len() ==> {
            &&& (#[trigger] frames@[i]).0 == samples@[i * channels]
            &&& frames@[i].1 == if channels >= 2 { samples@[i * channels + 1] } else { samples@[i * channels] }
        },
{
    let n = samples.len();
    let q: usize = n / channels;
    if n % channels != 0 {
        assert(channels >= 2);
        assert(q <= n / 2) by {
            vstd::arithmetic::div_mod::lemma_div_is_ordered_by_denominator(n as int, 2, channels as int);
        }
    }
    let count: usize = if n % channels == 0 { q } else { q + 1 };
    let mut frames: Vec<(T, T)> = Vec::new();
    let mut k: usize = 0;
    while k < count
        invariant
            n == samples@.len(),
            frames_defined(n as nat, channels as nat),
            count == frame_count(n as nat, channels as nat),
            k <= count,
            frames@.len() == k,
            forall|i: int| 0 <= i < k ==> {
                &&& (#[trigger] frames@[i]).0 == samples@[i * channels]
                &&& frames@[i].1 == if channels >= 2 { samples@[i * channels + 1] } else { samples@[i * channels] }
            },
        decreases count - k,
    {
        proof {
            lemma_frame_bounds(n as nat, channels as nat, k as nat);
        }
        let start: usize = k * channels;
        let left = samples[start];
        let right = if channels >= 2 { samples[start + 1] } else { samples[start] };
        frames.push((left, right));
        k = k + 1;
    }
    frames
}

/// Frame `k` of a stream starts inside it exactly when `k` is below the frame
/// count, and then (with two or more channels) its right sample is inside too.
proof fn lemma_frame_bounds(len: nat, ch: nat, k: nat)
    requires
        frames_defined(len, ch),
    ensures
        k < frame_count(len, ch) <==> k * ch < len,
        k * ch < len && ch >= 2 ==> k * ch + 1 < len,
        k * ch < len && len - k * ch < ch ==> k + 1 == frame_count(len, ch),
        k * ch < len && len - k * ch >= ch ==> (k + 1) * ch <= len,
{
    vstd::arithmetic::div_mod::lemma_fundamental_div_mod(len as int, ch as int);
    let q = len / ch;
    let r = len % ch;
    assert((k + 1) * ch == k * ch + ch) by (nonlinear_arith);
    if k < q {
        assert(k * ch <= (q - 1) * ch) by (nonlinear_arith)
            requires
                k <= q - 1,
        ;
        assert((q - 1) * ch == q * ch - ch) by (nonlinear_arith);
    } else {
        assert(k * ch >= q * ch) by (nonlinear_arith)
            requires
                k >= q,
        ;
        if k > q {
            assert(k * ch >= (q + 1) * ch) by (nonlinear_arith)
                requires
                    k >= q + 1,
            ;
            assert((q + 1) * ch == q * ch + ch) by (nonlinear_arith);
        }
    }
    assert(len == ch * q + r);
    assert(ch * q == q * ch) by (nonlinear_arith);
}

} // verus!
