//! The configuration of a multichannel audio stream.

use vstd::prelude::*;
use crate::error::{other, Error, Result};
#[allow(unused_imports)]
use crate::error::{outcome, Fault};
use crate::flv::{
    AUDIO_CHANNEL_ORDER_CUSTOM, AUDIO_CHANNEL_ORDER_NATIVE, AUDIO_CHANNEL_ORDER_UNSPECIFIED,
};
use crate::text::{cat, cat5, decimal_text};
#[allow(unused_imports)]
use crate::text::decimal;
use crate::wire::{copy_range, get_be32, put_be32, put_bytes};
#[allow(unused_imports)]
use crate::wire::{be32, be32_bytes, from, lemma_be32, lemma_be32_exact};

verus! {

/// How many channels there are and in which order.
#[derive(Debug, Clone, PartialEq, Eq)]
pub struct MultichannelConfig {
    pub order: MultichannelConfigOrder,
    pub channel_count: u8,
    /// What follows the channel count where the order is reserved.
    pub extra: Vec<u8>,
}

/// The order of the channels.
#[derive(Debug, Clone, PartialEq, Eq)]
pub enum MultichannelConfigOrder {
    /// Only the count is known.
    Unspecified,
    /// In the order of the mask bits that are set.
    Native { flags: u32 },
    /// One speaker position per channel.
    Custom { mapping: Vec<u8> },
    /// A value with no meaning yet.
    Reserved(u8),
}

/// The mathematical view of [`MultichannelConfigOrder`].
pub enum OrderView {
    Unspecified,
    Native { flags: u32 },
    Custom { mapping: Seq<u8> },
    Reserved(u8),
}

/// The mathematical view of [`MultichannelConfig`].
pub struct MultichannelView {
    pub order: OrderView,
    pub channel_count: u8,
    pub extra: Seq<u8>,
}

impl View for MultichannelConfigOrder {
    type V = OrderView;

    open spec fn view(&self) -> OrderView {
        match *self {
            MultichannelConfigOrder::Unspecified => OrderView::Unspecified,
            MultichannelConfigOrder::Native { flags } => OrderView::Native { flags },
            MultichannelConfigOrder::Custom { mapping } => OrderView::Custom { mapping: mapping@ },
            MultichannelConfigOrder::Reserved(v) => OrderView::Reserved(v),
        }
    }
}

impl View for MultichannelConfig {
    type V = MultichannelView;

    open spec fn view(&self) -> MultichannelView {
        MultichannelView {
            order: self.order@,
            channel_count: self.channel_count,
            extra: self.extra@,
        }
    }
}

impl OrderView {
    /// The byte that says which order it is.
    pub open spec fn code(self) -> u8 {
        match self {
            OrderView::Unspecified => AUDIO_CHANNEL_ORDER_UNSPECIFIED,
            OrderView::Native { .. } => AUDIO_CHANNEL_ORDER_NATIVE,
            OrderView::Custom { .. } => AUDIO_CHANNEL_ORDER_CUSTOM,
            OrderView::Reserved(v) => v,
        }
    }
}

impl MultichannelConfigOrder {
    /// The byte that says which order it is.
    pub fn as_u8(&self) -> (v: u8)
        ensures
            v == self@.code(),
    {
        match self {
            MultichannelConfigOrder::Unspecified => AUDIO_CHANNEL_ORDER_UNSPECIFIED,
            MultichannelConfigOrder::Native { .. } => AUDIO_CHANNEL_ORDER_NATIVE,
            MultichannelConfigOrder::Custom { .. } => AUDIO_CHANNEL_ORDER_CUSTOM,
            MultichannelConfigOrder::Reserved(v) => *v,
        }
    }
}

/// The configuration that `body` holds. The three defined orders take exactly
/// the bytes they need; a reserved one keeps what follows.
pub open spec fn multichannel_of(body: Seq<u8>) -> core::result::Result<MultichannelView, Fault> {
    if body.len() < 2 {
        Err(Fault::Other("MultichannelConfig: need 2 bytes (order + channelCount)"@))
    } else if body[0] == AUDIO_CHANNEL_ORDER_UNSPECIFIED {
        if body.len() != 2 {
            Err(Fault::Other("MultichannelConfig.Unspecified: trailing bytes after channelCount"@))
        } else {
            Ok(
                MultichannelView {
                    order: OrderView::Unspecified,
                    channel_count: body[1],
                    extra: Seq::empty(),
                },
            )
        }
    } else if body[0] == AUDIO_CHANNEL_ORDER_NATIVE {
        if body.len() != 6 {
            Err(
                Fault::Other(
                    "MultichannelConfig.Native: need 6 bytes (order + count + UI32 flags)"@,
                ),
            )
        } else {
            Ok(
                MultichannelView {
                    order: OrderView::Native { flags: be32(body, 2) },
                    channel_count: body[1],
                    extra: Seq::empty(),
                },
            )
        }
    } else if body[0] == AUDIO_CHANNEL_ORDER_CUSTOM {
        if body.len() != 2 + body[1] {
            Err(
                Fault::Other(
                    "MultichannelConfig.Custom: need "@ + decimal((2 + body[1]) as nat)
                        + " bytes for channelCount="@ + decimal(body[1] as nat) + (", got "@
                        + decimal(body.len())),
                ),
            )
        } else {
            Ok(
                MultichannelView {
                    order: OrderView::Custom { mapping: from(body, 2) },
                    channel_count: body[1],
                    extra: Seq::empty(),
                },
            )
        }
    } else {
        Ok(
            MultichannelView {
                order: OrderView::Reserved(body[0]),
                channel_count: body[1],
                extra: from(body, 2),
            },
        )
    }
}

impl MultichannelView {
    /// The bytes of this configuration.
    pub open spec fn encoded(self) -> Seq<u8> {
        seq![self.order.code(), self.channel_count] + match self.order {
            OrderView::Unspecified => Seq::empty(),
            OrderView::Native { flags } => be32_bytes(flags),
            OrderView::Custom { mapping } => mapping,
            OrderView::Reserved(_) => self.extra,
        }
    }
}

impl MultichannelConfig {
    /// The configuration that `body` holds.
    pub fn parse(body: &[u8]) -> (r: Result<MultichannelConfig>)
        ensures
            outcome(r) == multichannel_of(body@),
    {
        let n: usize = body.len();
        if n < 2 {
            return Err(other("MultichannelConfig: need 2 bytes (order + channelCount)"));
        }
        let order: u8 = body[0];
        let channel_count: u8 = body[1];
        let none: Vec<u8> = Vec::new();
        assert(none@ =~= Seq::empty());
        if order == AUDIO_CHANNEL_ORDER_UNSPECIFIED {
            if n != 2 {
                return Err(
                    other("MultichannelConfig.Unspecified: trailing bytes after channelCount"),
                );
            }
            Ok(
                MultichannelConfig {
                    order: MultichannelConfigOrder::Unspecified,
                    channel_count,
                    extra: none,
                },
            )
        } else if order == AUDIO_CHANNEL_ORDER_NATIVE {
            if n != 6 {
                return Err(
                    other("MultichannelConfig.Native: need 6 bytes (order + count + UI32 flags)"),
                );
            }
            Ok(
                MultichannelConfig {
                    order: MultichannelConfigOrder::Native { flags: get_be32(body, 2) },
                    channel_count,
                    extra: none,
                },
            )
        } else if order == AUDIO_CHANNEL_ORDER_CUSTOM {
            let need: usize = 2 + channel_count as usize;
            if n != need {
                let want = decimal_text(need as u64);
                let count = decimal_text(channel_count as u64);
                let got = decimal_text(n as u64);
                let tail = cat(", got ", got.as_str());
                return Err(
                    Error::Other(
                        cat5(
                            "MultichannelConfig.Custom: need ",
                            want.as_str(),
                            " bytes for channelCount=",
                            count.as_str(),
                            tail.as_str(),
                        ),
                    ),
                );
            }
            Ok(
                MultichannelConfig {
                    order: MultichannelConfigOrder::Custom { mapping: copy_range(body, 2, n) },
                    channel_count,
                    extra: none,
                },
            )
        } else {
            Ok(
                MultichannelConfig {
                    order: MultichannelConfigOrder::Reserved(order),
                    channel_count,
                    extra: copy_range(body, 2, n),
                },
            )
        }
    }

    /// The bytes of this configuration.
    pub fn encode(&self) -> (out: Vec<u8>)
        ensures
            out@ == self@.encoded(),
    {
        let mut out: Vec<u8> = Vec::new();
        out.push(self.order.as_u8());
        out.push(self.channel_count);
        match &self.order {
            MultichannelConfigOrder::Unspecified => {},
            MultichannelConfigOrder::Native { flags } => {
                put_be32(&mut out, *flags);
            },
            MultichannelConfigOrder::Custom { mapping } => {
                put_bytes(&mut out, mapping.as_slice());
            },
            MultichannelConfigOrder::Reserved(_) => {
                put_bytes(&mut out, self.extra.as_slice());
            },
        }
        assert(out@ =~= self@.encoded());
        out
    }
}

/// Whether the parts of a configuration agree: as many positions as channels,
/// extra bytes only where the order is reserved, and a reserved order outside
/// the defined ones.
pub open spec fn consistent(c: MultichannelView) -> bool {
    match c.order {
        OrderView::Unspecified => c.extra == Seq::<u8>::empty(),
        OrderView::Native { .. } => c.extra == Seq::<u8>::empty(),
        OrderView::Custom { mapping } => c.extra == Seq::<u8>::empty() && mapping.len()
            == c.channel_count,
        OrderView::Reserved(v) => v > 2,
    }
}

/// A consistent configuration reads back as it was written.
pub proof fn law_multichannel_round_trip(c: MultichannelView)
    requires
        consistent(c),
    ensures
        multichannel_of(c.encoded()) == Ok::<MultichannelView, Fault>(c),
{
    let s = c.encoded();
    match c.order {
        OrderView::Native { flags } => {
            assert(s.subrange(2, 6) =~= be32_bytes(flags));
            lemma_be32(s, 2, flags);
        },
        OrderView::Custom { mapping } => {
            assert(from(s, 2) =~= mapping);
        },
        OrderView::Reserved(_) => {
            assert(from(s, 2) =~= c.extra);
        },
        OrderView::Unspecified => {},
    }
}

/// Whatever parses is consistent, and its bytes are the ones it came from.
pub proof fn law_multichannel_parse_is_exact(body: Seq<u8>)
    requires
        multichannel_of(body) is Ok,
    ensures
        consistent(multichannel_of(body)->Ok_0),
        multichannel_of(body)->Ok_0.encoded() == body,
{
    let c = multichannel_of(body)->Ok_0;
    if let OrderView::Native { flags } = c.order {
        lemma_be32_exact(body, 2);
    }
    assert(c.encoded() =~= body);
}

} // verus!
