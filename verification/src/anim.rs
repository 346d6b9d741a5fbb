use vstd::prelude::*;
use crate::numfmt::{spec_zero_padded, zero_padded_string};

verus! {

/// A named knob varied linearly across a window of frames: over frames
/// `fst_frame ..= last_frame` the knob's value runs from `min_val` to
/// `max_val`.
///
/// The value bounds are carried generically: this module computes only the
/// exact, integer part of the interpolation (which variations apply to a
/// frame and how far through their windows the frame is); turning that into
/// an interpolated value is the caller's affair.
#[derive(Clone, Debug)]
pub struct Variation<V> {
    pub knob: String,
    pub fst_frame: usize,
    pub last_frame: usize,
    pub min_val: V,
    pub max_val: V,
}

/// One knob's state at one frame: the variation's value bounds together with
/// the frame's progress through the window, as the exact fraction
/// `num / den` (0 at the window's first frame, 1 at its last).
#[derive(Clone, Debug)]
pub struct KnobValue<V> {
    pub knob: String,
    pub min_val: V,
    pub max_val: V,
    pub num: usize,
    pub den: usize,
}

/// The variation's window contains `frame`.
pub open spec fn spec_applies<V>(v: Variation<V>, frame: int) -> bool {
    v.fst_frame <= frame <= v.last_frame
}

/// The knob table entry a variation contributes at `frame`.
pub open spec fn spec_knob_value<V>(v: Variation<V>, frame: int) -> KnobValue<V> {
    KnobValue {
        knob: v.knob,
        min_val: v.min_val,
        max_val: v.max_val,
        num: (frame - v.fst_frame) as usize,
        den: (v.last_frame - v.fst_frame) as usize,
    }
}

/// The knob table for `frame`: one entry per variation whose window contains
/// the frame, in the variations' own order. A knob named by several
/// applicable variations appears once per variation, so a consumer reading
/// the table front to back sees the last one win.
pub open spec fn spec_knobs_for_frame<V>(frame: int, vs: Seq<Variation<V>>) -> Seq<KnobValue<V>>
    decreases vs.len(),
{
    if vs.len() == 0 {
        Seq::empty()
    } else {
        let init = spec_knobs_for_frame(frame, vs.drop_last());
        if spec_applies(vs.last(), frame) {
            init.push(spec_knob_value(vs.last(), frame))
        } else {
            init
        }
    }
}

/// Compute the knob table for one frame. The result is a pure function of
/// the frame index and the variation list alone — asking again with the same
/// arguments gives the identical table.
pub fn knobs_for_frame<V: Copy>(frame: usize, varies: &Vec<Variation<V>>) -> (out: Vec<
    KnobValue<V>,
>)
    ensures
        out@ == spec_knobs_for_frame(frame as int, varies@),
{
    let mut out: Vec<KnobValue<V>> = Vec::new();
    let mut i: usize = 0;
    while i < varies.len()
        invariant
            i <= varies.len(),
            out@ == spec_knobs_for_frame(frame as int, varies@.take(i as int)),
        decreases varies.len() - i,
    {
        let v = &varies[i];
        if v.fst_frame <= frame && frame <= v.last_frame {
            out.push(
                KnobValue {
                    knob: v.knob.clone(),
                    min_val: v.min_val,
                    max_val: v.max_val,
                    num: frame - v.fst_frame,
                    den: v.last_frame - v.fst_frame,
                },
            );
        }
        i = i + 1;
        proof {
            assert(varies@.take(i as int).drop_last() =~= varies@.take(i - 1));
            assert(varies@.take(i as int).last() == varies@[i - 1]);
        }
    }
    proof {
        assert(varies@.take(varies@.len() as int) =~= varies@);
    }
    out
}

/// At the first frame of a variation's window the interpolation fraction is
/// zero, and at the last frame it is one (numerator equal to denominator);
/// in between the numerator counts frames since the window opened. A window
/// of a single frame is the degenerate exception: its fraction is 0/0 there,
/// and the consumer sees num == den == 0.
pub proof fn lemma_knob_window_endpoints<V>(v: Variation<V>)
    requires
        v.fst_frame <= v.last_frame,
    ensures
        spec_knob_value(v, v.fst_frame as int).num == 0,
        spec_knob_value(v, v.last_frame as int).num == spec_knob_value(
            v,
            v.last_frame as int,
        ).den,
        spec_knob_value(v, v.fst_frame as int).den == v.last_frame - v.fst_frame,
{
}

/// How many decimal digits `n` has; 0 itself counts as having none.
pub open spec fn spec_decimal_digits(n: nat) -> nat
    decreases n,
{
    if n == 0 {
        0
    } else {
        (1 + spec_decimal_digits(n / 10)) as nat
    }
}

/// A number never has more decimal digits than its own magnitude.
proof fn lemma_decimal_digits_le(n: nat)
    ensures
        spec_decimal_digits(n) <= n,
    decreases n,
{
    if n > 0 {
        lemma_decimal_digits_le(n / 10);
    }
}

/// Count the decimal digits of `n` (zero digits for 0, matching the padding
/// convention of the frame filenames).
pub fn decimal_digits(n: usize) -> (count: usize)
    ensures
        count == spec_decimal_digits(n as nat),
{
    proof {
        lemma_decimal_digits_le(n as nat);
    }
    let mut m = n;
    let mut count: usize = 0;
    while m > 0
        invariant
            count + spec_decimal_digits(m as nat) == spec_decimal_digits(n as nat),
            spec_decimal_digits(n as nat) <= n,
        decreases m,
    {
        m = m / 10;
        count = count + 1;
    }
    count
}

/// The filename of the nth frame of an animation of `frames` frames: the
/// basename under the `anim` directory, with the frame index zero-padded to
/// as many digits as the total frame count has.
pub open spec fn spec_anim_frame_filename(frames: nat, basename: Seq<char>, n: nat) -> Seq<char> {
    "anim/"@ + basename + spec_zero_padded(n, spec_decimal_digits(frames) as int) + ".png"@
}

/// Generate the filename used for the nth frame of an animation.
pub fn anim_frame_filename(frames: usize, basename: &str, n: usize) -> (name: String)
    ensures
        name@ == spec_anim_frame_filename(frames as nat, basename@, n as nat),
{
    let digits_for_name = decimal_digits(frames);
    let mut s = String::new();
    s.append("anim/");
    s.append(basename);
    let padded = zero_padded_string(n, digits_for_name);
    s.append(padded.as_str());
    s.append(".png");
    proof {
        assert(s@ =~= spec_anim_frame_filename(frames as nat, basename@, n as nat));
    }
    s
}

/// Look a knob up in a frame's table by name, taking the hindmost entry: of
/// several variations naming the same knob, the last one wins.
pub open spec fn spec_knob_lookup<V>(entries: Seq<KnobValue<V>>, name: Seq<char>) -> Option<
    KnobValue<V>,
>
    decreases entries.len(),
{
    if entries.len() == 0 {
        None
    } else if entries.last().knob@ == name {
        Some(entries.last())
    } else {
        spec_knob_lookup(entries.drop_last(), name)
    }
}

/// Find the active entry for the knob called `name`, scanning from the back
/// so that the last applicable variation wins.
pub fn knob_lookup<V: Copy>(entries: &Vec<KnobValue<V>>, name: &String) -> (r: Option<
    KnobValue<V>,
>)
    ensures
        r == spec_knob_lookup(entries@, name@),
{
    let mut i: usize = entries.len();
    proof {
        assert(entries@.take(entries@.len() as int) =~= entries@);
    }
    while i > 0
        invariant
            i <= entries.len(),
            spec_knob_lookup(entries@, name@) == spec_knob_lookup(
                entries@.take(i as int),
                name@,
            ),
        decreases i,
    {
        i = i - 1;
        let e = &entries[i];
        if e.knob.eq(name) {
            proof {
                assert(entries@.take(i + 1).last() == entries@[i as int]);
            }
            return Some(
                KnobValue {
                    knob: e.knob.clone(),
                    min_val: e.min_val,
                    max_val: e.max_val,
                    num: e.num,
                    den: e.den,
                },
            );
        }
        proof {
            assert(entries@.take(i + 1).last() == entries@[i as int]);
            assert(entries@.take(i + 1).drop_last() =~= entries@.take(i as int));
        }
    }
    proof {
        assert(entries@.take(0) =~= Seq::<KnobValue<V>>::empty());
    }
    None
}

} // verus!
