use crate::config::MAX_CHANNELS;
use crate::nonzero::NonZeroCount;
use vstd::prelude::*;

verus! {

/// The layout of the channels in a frame of audio.
#[derive(Clone, Copy, Debug, PartialEq, Eq, Hash)]
pub enum ChannelFormat {
    Mono,
    Stereo,
    /// Some number of channels with no particular meaning attached.
    Raw { channels: NonZeroCount },
}

impl ChannelFormat {
    /// Number of channels in one frame.
    pub open spec fn channel_count(self) -> nat {
        match self {
            ChannelFormat::Mono => 1,
            ChannelFormat::Stereo => 2,
            ChannelFormat::Raw { channels } => channels@ as nat,
        }
    }

    /// Number of channels in one frame.
    pub fn get_channel_count(&self) -> (r: NonZeroCount)
        ensures
            r@ == self.channel_count(),
    {
        match self {
            ChannelFormat::Mono => {
                let c = NonZeroCount::new(1);
                c.unwrap()
            },
            ChannelFormat::Stereo => {
                let c = NonZeroCount::new(2);
                c.unwrap()
            },
            ChannelFormat::Raw { channels } => *channels,
        }
    }

    /// Number of channels in one frame, which is never zero.
    pub fn channels(&self) -> (r: usize)
        ensures
            r == self.channel_count(),
            r > 0,
    {
        let c = self.get_channel_count();
        c.get()
    }
}

/// Standard channel layouts a decoder may report.
#[derive(Clone, Copy, Debug, PartialEq, Eq, Hash, Structural)]
pub enum DecodedLayout {
    Mono,
    Stereo,
    FivePointOne,
    TwoPointOne,
}

/// Number of bits set in `x`.
pub open spec fn ones(x: u32) -> nat
    decreases x,
{
    if x == 0 {
        0
    } else {
        (x % 2) as nat + ones(x / 2)
    }
}

proof fn lemma_ones_bounded(x: u32)
    ensures
        ones(x) <= x,
    decreases x,
{
    if x != 0 {
        lemma_ones_bounded(x / 2);
    }
}

/// Number of bits set in `x`.
pub fn count_ones(x: u32) -> (r: u32)
    ensures
        r == ones(x),
{
    let mut rest = x;
    let mut count: u32 = 0;
    proof {
        lemma_ones_bounded(x);
    }
    while rest != 0
        invariant
            count + ones(rest) == ones(x),
            ones(x) <= x,
        decreases rest,
    {
        count = count + rest % 2;
        rest = rest / 2;
    }
    count
}

/// The channel format a decoder's report maps to: a known layout maps directly; otherwise the number of
/// channels in the channel mask decides (none for an empty mask or for [MAX_CHANNELS] or more channels).
pub open spec fn format_from_report(layout: Option<DecodedLayout>, channel_mask: Option<u32>) -> Option<nat> {
    match layout {
        Some(DecodedLayout::Mono) => Some(1),
        Some(DecodedLayout::Stereo) => Some(2),
        Some(DecodedLayout::FivePointOne) => Some(6),
        Some(DecodedLayout::TwoPointOne) => Some(3),
        None => match channel_mask {
            Some(m) => if ones(m) == 0 || ones(m) >= MAX_CHANNELS {
                None
            } else {
                Some(ones(m))
            },
            None => None,
        },
    }
}

/// Map what a decoder reports about its channels to a channel format, if it has one.
///
/// Mono and stereo reports, whether as layouts or as one- and two-channel masks, map to
/// [ChannelFormat::Mono] and [ChannelFormat::Stereo]; other counts map to raw formats.
pub fn channel_format_from_report(layout: Option<DecodedLayout>, channel_mask: Option<u32>) -> (r: Option<
    ChannelFormat,
>)
    ensures
        match format_from_report(layout, channel_mask) {
            None => r is None,
            Some(n) => r matches Some(f) && f.channel_count() == n && (n == 1 <==> f == ChannelFormat::Mono) && (n
                == 2 <==> f == ChannelFormat::Stereo),
        },
{
    match layout {
        Some(DecodedLayout::Mono) => Some(ChannelFormat::Mono),
        Some(DecodedLayout::Stereo) => Some(ChannelFormat::Stereo),
        Some(DecodedLayout::FivePointOne) => Some(ChannelFormat::Raw { channels: NonZeroCount::new(6).unwrap() }),
        Some(DecodedLayout::TwoPointOne) => Some(ChannelFormat::Raw { channels: NonZeroCount::new(3).unwrap() }),
        None => match channel_mask {
            Some(mask) => {
                let count = count_ones(mask);
                if count == 0 {
                    None
                } else if count == 1 {
                    Some(ChannelFormat::Mono)
                } else if count == 2 {
                    Some(ChannelFormat::Stereo)
                } else if (count as usize) < MAX_CHANNELS {
                    Some(ChannelFormat::Raw { channels: NonZeroCount::new(count as usize).unwrap() })
                } else {
                    None
                }
            },
            None => None,
        },
    }
}

/// The channels the decoding library reports for a standard layout, as a channel mask: front left for mono;
/// front left and right for stereo; those and the low-frequency channel for 2.1; and front left, right and
/// centre, rear left and right and the low-frequency channel for 5.1.
pub open spec fn layout_mask(layout: DecodedLayout) -> u32 {
    match layout {
        DecodedLayout::Mono => 0x1,
        DecodedLayout::Stereo => 0x3,
        DecodedLayout::TwoPointOne => 0xB,
        DecodedLayout::FivePointOne => 0x3F,
    }
}

/// A report names its channels either by a standard layout or by a mask, and both ways agree: a layout maps
/// to the format of its own mask, whose channel count is the number of channels the layout names (1, 2, 3
/// and 6), whatever mask comes with it.  A report with only a mask maps to as many channels as the mask has
/// bits set.
pub proof fn lemma_layout_is_its_mask(layout: DecodedLayout, mask: Option<u32>, m: u32)
    ensures
        format_from_report(Some(layout), mask) == format_from_report(None, Some(layout_mask(layout))),
        format_from_report(Some(layout), mask) == Some(ones(layout_mask(layout))),
        format_from_report(Some(layout), mask) == Some(
            match layout {
                DecodedLayout::Mono => 1nat,
                DecodedLayout::Stereo => 2nat,
                DecodedLayout::TwoPointOne => 3nat,
                DecodedLayout::FivePointOne => 6nat,
            },
        ),
        format_from_report(None, Some(m)) matches Some(n) ==> n == ones(m),
        format_from_report(None, Some(m)) is Some <==> 0 < ones(m) < MAX_CHANNELS,
        format_from_report(None, None) is None,
{
    reveal_with_fuel(ones, 7);
    assert(ones(0x1) == 1);
    assert(ones(0x3) == 2);
    assert(ones(0xB) == 3);
    assert(ones(0x3F) == 6);
}

} // verus!
