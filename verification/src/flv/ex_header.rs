//! What stands between the first byte of an extended tag and its body: modifier
//! entries, the multitrack byte and the FourCC.
//!
//! Audio and video differ only in the packet types that announce the first two.

use vstd::prelude::*;
use crate::error::{Error, Result};
#[allow(unused_imports)]
use crate::error::Fault;
use crate::flv::mod_ex::{build_mod_ex_chain, parse_mod_ex_chain, ModEx};
#[allow(unused_imports)]
use crate::flv::mod_ex::{
    chain_at, chain_bytes, entry_fits, law_mod_ex_chain_round_trip, ChainView, ModExView,
};
use crate::flv::multitrack::Multitrack;
#[allow(unused_imports)]
use crate::flv::multitrack::{is_many_codecs, MultitrackView};
use crate::flv::{get_fourcc, put_fourcc, AV_MULTITRACK_TYPE_MANY_TRACKS_MANY_CODECS};
#[allow(unused_imports)]
use crate::flv::fourcc_view;
#[allow(unused_imports)]
use crate::model::{opt_view, views};
use crate::text::cat3;
use crate::wire::put_bytes;

verus! {

/// The packet types that announce a multitrack byte and a modifier entry, and
/// the word for the medium in error texts.
pub struct MediumView {
    pub multitrack: u8,
    pub mod_ex: u8,
    pub what: Seq<char>,
}

/// What was read before the body.
pub struct PreludeView {
    pub mod_ex: Seq<ModExView>,
    pub packet_type: u8,
    pub multitrack_type: Option<u8>,
    pub fourcc: Option<Seq<u8>>,
    pub end: int,
}

/// The error for a header that ends early or nests.
pub open spec fn header_fault(what: Seq<char>, m: Seq<char>) -> Fault {
    Fault::Other("Enhanced RTMP "@ + what + m)
}

/// The modifier entries, if the first byte announces any, and the packet type
/// after them.
pub open spec fn chain_of(s: Seq<u8>, medium: MediumView) -> core::result::Result<
    ChainView,
    Fault,
> {
    if s[0] % 16 == medium.mod_ex {
        chain_at(s, 1, medium.mod_ex, medium.what)
    } else {
        Ok(ChainView { chain: Seq::empty(), next: s[0] % 16, end: 1 })
    }
}

/// The multitrack byte, if packet type `c.next` announces one, and the FourCC,
/// which is absent only where each track has its own.
pub open spec fn after_chain(s: Seq<u8>, c: ChainView, medium: MediumView) -> core::result::Result<
    PreludeView,
    Fault,
> {
    let multi = c.next == medium.multitrack;
    let mode = s[c.end] / 16;
    let inner = s[c.end] % 16;
    let at = if multi {
        c.end + 1
    } else {
        c.end
    };
    let packet_type = if multi {
        inner
    } else {
        c.next
    };
    let multitrack_type = if multi {
        Some(mode)
    } else {
        None
    };
    if multi && s.len() <= c.end {
        Err(
            header_fault(
                medium.what,
                " Multitrack: truncated reading multitrackType nibble"@,
            ),
        )
    } else if multi && inner == medium.multitrack {
        Err(
            header_fault(
                medium.what,
                " Multitrack: inner PacketType MUST NOT be Multitrack"@,
            ),
        )
    } else if multi && is_many_codecs(mode) {
        Ok(
            PreludeView {
                mod_ex: c.chain,
                packet_type,
                multitrack_type,
                fourcc: None,
                end: at,
            },
        )
    } else if s.len() < at + 4 {
        Err(header_fault(medium.what, " tag: need 4 bytes for FourCC after header/ModEx"@))
    } else {
        Ok(
            PreludeView {
                mod_ex: c.chain,
                packet_type,
                multitrack_type,
                fourcc: Some(s.subrange(at, at + 4)),
                end: at + 4,
            },
        )
    }
}

/// All that stands before the body of the extended tag `s`.
pub open spec fn prelude_of(s: Seq<u8>, medium: MediumView) -> core::result::Result<
    PreludeView,
    Fault,
> {
    match chain_of(s, medium) {
        Err(e) => Err(e),
        Ok(c) => after_chain(s, c, medium),
    }
}

/// What was read before the body.
pub struct Prelude {
    pub mod_ex: Vec<ModEx>,
    pub packet_type: u8,
    pub multitrack_type: Option<u8>,
    pub fourcc: Option<[u8; 4]>,
    pub end: usize,
}

impl View for Prelude {
    type V = PreludeView;

    open spec fn view(&self) -> PreludeView {
        PreludeView {
            mod_ex: views(self.mod_ex@),
            packet_type: self.packet_type,
            multitrack_type: self.multitrack_type,
            fourcc: fourcc_view(self.fourcc),
            end: self.end as int,
        }
    }
}

fn header_error(what: &str, m: &str) -> (e: Error)
    ensures
        e@ == header_fault(what@, m@),
{
    Error::Other(cat3("Enhanced RTMP ", what, m))
}

/// Read all that stands before the body of an extended tag.
pub(crate) fn parse_prelude(
    payload: &[u8],
    pt_multitrack: u8,
    pt_mod_ex: u8,
    what: &str,
) -> (r: Result<Prelude>)
    requires
        payload@.len() > 0,
    ensures
        ({
            let medium = MediumView {
                multitrack: pt_multitrack,
                mod_ex: pt_mod_ex,
                what: what@,
            };
            match r {
                Ok(p) => 1 <= p.end <= payload@.len() && prelude_of(payload@, medium) == Ok::<
                    PreludeView,
                    Fault,
                >(p@) && (p.multitrack_type is None ==> p.fourcc is Some),
                Err(e) => prelude_of(payload@, medium) == Err::<PreludeView, Fault>(e@),
            }
        }),
{
    let n: usize = payload.len();
    let first: u8 = payload[0] % 16;
    let (mod_ex, mut packet_type, mut pos) = if first == pt_mod_ex {
        match parse_mod_ex_chain(payload, 1, pt_mod_ex, what) {
            Ok(t) => t,
            Err(e) => {
                return Err(e);
            },
        }
    } else {
        let none: Vec<ModEx> = Vec::new();
        assert(views(none@) =~= Seq::empty());
        (none, first, 1)
    };
    let mut multitrack_type: Option<u8> = None;
    if packet_type == pt_multitrack {
        if pos >= n {
            return Err(
                header_error(what, " Multitrack: truncated reading multitrackType nibble"),
            );
        }
        let b: u8 = payload[pos];
        let inner: u8 = b % 16;
        if inner == pt_multitrack {
            return Err(
                header_error(what, " Multitrack: inner PacketType MUST NOT be Multitrack"),
            );
        }
        multitrack_type = Some(b / 16);
        packet_type = inner;
        pos = pos + 1;
    }
    let own_codecs = match multitrack_type {
        Some(t) => t == AV_MULTITRACK_TYPE_MANY_TRACKS_MANY_CODECS,
        None => false,
    };
    if own_codecs {
        return Ok(Prelude { mod_ex, packet_type, multitrack_type, fourcc: None, end: pos });
    }
    if n - pos < 4 {
        return Err(
            header_error(what, " tag: need 4 bytes for FourCC after header/ModEx"),
        );
    }
    let fourcc = Some(get_fourcc(payload, pos));
    Ok(Prelude { mod_ex, packet_type, multitrack_type, fourcc, end: pos + 4 })
}

/// The packet type of the first byte: the one that announces modifier entries if
/// there are any.
pub open spec fn head_packet_type(mod_ex: Seq<ModExView>, next: u8, medium: MediumView) -> u8 {
    if mod_ex.len() == 0 {
        next
    } else {
        medium.mod_ex
    }
}

/// The packet type after the modifier entries.
pub open spec fn outer_packet_type(
    multitrack: Option<MultitrackView>,
    inner: u8,
    medium: MediumView,
) -> u8 {
    if multitrack is Some {
        medium.multitrack
    } else {
        inner
    }
}

/// The FourCC, or four zero bytes.
pub open spec fn fourcc_bytes(f: Option<Seq<u8>>) -> Seq<u8> {
    match f {
        Some(s) => s,
        None => seq![0u8, 0, 0, 0],
    }
}

/// All that stands between the first byte and the body.
#[verifier::opaque]
pub open spec fn prelude_bytes(
    mod_ex: Seq<ModExView>,
    inner: u8,
    multitrack: Option<MultitrackView>,
    fourcc: Option<Seq<u8>>,
    medium: MediumView,
) -> Seq<u8> {
    chain_bytes(mod_ex, medium.mod_ex, outer_packet_type(multitrack, inner, medium))
        + match multitrack {
        None => fourcc_bytes(fourcc),
        Some(m) => seq![(m.multitrack_type % 16 * 16 + inner % 16) as u8] + if is_many_codecs(
            m.multitrack_type,
        ) {
            Seq::empty()
        } else {
            fourcc_bytes(fourcc)
        },
    }
}

/// Append all that stands between the first byte and the body.
pub(crate) fn build_prelude(
    out: &mut Vec<u8>,
    mod_ex: &Vec<ModEx>,
    inner: u8,
    multitrack: &Option<Multitrack>,
    fourcc: &Option<[u8; 4]>,
    pt_multitrack: u8,
    pt_mod_ex: u8,
    Ghost(medium): Ghost<MediumView>,
)
    requires
        medium.multitrack == pt_multitrack,
        medium.mod_ex == pt_mod_ex,
    ensures
        final(out)@ == old(out)@ + prelude_bytes(
            views(mod_ex@),
            inner,
            opt_view(*multitrack),
            fourcc_view(*fourcc),
            medium,
        ),
{
    let outer: u8 = if multitrack.is_some() {
        pt_multitrack
    } else {
        inner
    };
    build_mod_ex_chain(out, mod_ex, pt_mod_ex, outer);
    let mut with_fourcc = true;
    if let Some(m) = multitrack {
        out.push(m.multitrack_type % 16 * 16 + inner % 16);
        with_fourcc = m.multitrack_type != AV_MULTITRACK_TYPE_MANY_TRACKS_MANY_CODECS;
    }
    if with_fourcc {
        match fourcc {
            Some(f) => put_fourcc(out, f),
            None => {
                put_bytes(out, [0u8, 0, 0, 0].as_slice());
            },
        }
    }
    proof {
        reveal(prelude_bytes);
    }
    assert(out@ =~= old(out)@ + prelude_bytes(
        views(mod_ex@),
        inner,
        opt_view(*multitrack),
        fourcc_view(*fourcc),
        medium,
    ));
}

/// Whether all this can be put on the wire as it is.
pub open spec fn prelude_fits(
    mod_ex: Seq<ModExView>,
    inner: u8,
    multitrack: Option<MultitrackView>,
    fourcc: Option<Seq<u8>>,
    medium: MediumView,
) -> bool {
    &&& forall|i: int| 0 <= i < mod_ex.len() ==> entry_fits(#[trigger] mod_ex[i])
    &&& inner < 16
    &&& inner != medium.multitrack
    &&& multitrack is None ==> inner != medium.mod_ex
    &&& match multitrack {
        None => fourcc is Some && fourcc->0.len() == 4,
        Some(m) => m.multitrack_type < 16 && if is_many_codecs(m.multitrack_type) {
            fourcc is None
        } else {
            fourcc is Some && fourcc->0.len() == 4
        },
    }
}

/// Whether the packet types of a medium are legal.
pub open spec fn medium_ok(medium: MediumView) -> bool {
    medium.mod_ex < 16 && medium.multitrack < 16 && medium.mod_ex != medium.multitrack
}

/// What was put between the first byte and the body reads back.
pub proof fn lemma_prelude_round_trip(
    head: u8,
    mod_ex: Seq<ModExView>,
    inner: u8,
    multitrack: Option<MultitrackView>,
    fourcc: Option<Seq<u8>>,
    medium: MediumView,
    body: Seq<u8>,
)
    requires
        medium_ok(medium),
        prelude_fits(mod_ex, inner, multitrack, fourcc, medium),
        head % 16 == head_packet_type(
            mod_ex,
            outer_packet_type(multitrack, inner, medium),
            medium,
        ),
    ensures
        ({
            let p = prelude_bytes(mod_ex, inner, multitrack, fourcc, medium);
            prelude_of(seq![head] + p + body, medium) == Ok::<PreludeView, Fault>(
                PreludeView {
                    mod_ex,
                    packet_type: inner,
                    multitrack_type: match multitrack {
                        Some(m) => Some(m.multitrack_type),
                        None => None,
                    },
                    fourcc,
                    end: (1 + p.len()) as int,
                },
            )
        }),
{
    reveal(prelude_bytes);
    let outer = outer_packet_type(multitrack, inner, medium);
    let c = chain_bytes(mod_ex, medium.mod_ex, outer);
    let p = prelude_bytes(mod_ex, inner, multitrack, fourcc, medium);
    let s = seq![head] + p + body;
    let tail = p.subrange(c.len() as int, p.len() as int);
    let e = 1 + c.len() as int;
    assert(p =~= c + tail);
    assert(s[0] == head);
    assert(s =~= seq![head] + c + (tail + body));
    if mod_ex.len() > 0 {
        law_mod_ex_chain_round_trip(
            seq![head],
            mod_ex,
            medium.mod_ex,
            outer,
            tail + body,
            medium.what,
        );
    } else {
        assert(mod_ex =~= Seq::empty());
        assert(c =~= Seq::empty());
    }
    assert(chain_of(s, medium) == Ok::<ChainView, Fault>(
        ChainView { chain: mod_ex, next: outer, end: e },
    ));
    match multitrack {
        None => {
            assert(s.subrange(e, e + 4) =~= fourcc->0);
        },
        Some(m) => {
            assert(s[e] == tail[0]);
            assert(tail[0] == (m.multitrack_type % 16 * 16 + inner % 16) as u8);
            if !is_many_codecs(m.multitrack_type) {
                assert(s.subrange(e + 1, e + 5) =~= fourcc->0);
            }
        },
    }
}

/// Whatever was read before a body can be put on the wire again.
pub proof fn lemma_parsed_prelude_fits(
    s: Seq<u8>,
    medium: MediumView,
    multitrack: Option<MultitrackView>,
)
    requires
        s.len() > 0,
        medium_ok(medium),
        prelude_of(s, medium) is Ok,
        match prelude_of(s, medium)->Ok_0.multitrack_type {
            None => multitrack is None,
            Some(t) => multitrack is Some && multitrack->0.multitrack_type == t,
        },
    ensures
        ({
            let p = prelude_of(s, medium)->Ok_0;
            prelude_fits(p.mod_ex, p.packet_type, multitrack, p.fourcc, medium)
        }),
{
    if s[0] % 16 == medium.mod_ex {
        crate::flv::mod_ex::lemma_parsed_chain_fits(s, 1, medium.mod_ex, medium.what);
    }
}

/// Where there are no modifier entries, writing what was read before a body gives back
/// its bytes.
pub proof fn lemma_bare_prelude_exact(
    s: Seq<u8>,
    medium: MediumView,
    multitrack: Option<MultitrackView>,
)
    requires
        s.len() > 0,
        medium_ok(medium),
        prelude_of(s, medium) is Ok,
        prelude_of(s, medium)->Ok_0.mod_ex.len() == 0,
        match prelude_of(s, medium)->Ok_0.multitrack_type {
            None => multitrack is None,
            Some(t) => multitrack is Some && multitrack->0.multitrack_type == t,
        },
    ensures
        ({
            let p = prelude_of(s, medium)->Ok_0;
            &&& 1 <= p.end <= s.len()
            &&& s[0] % 16 == head_packet_type(
                p.mod_ex,
                outer_packet_type(multitrack, p.packet_type, medium),
                medium,
            )
            &&& prelude_bytes(p.mod_ex, p.packet_type, multitrack, p.fourcc, medium)
                == s.subrange(1, p.end)
        }),
{
    reveal(prelude_bytes);
    let p = prelude_of(s, medium)->Ok_0;
    if s[0] % 16 == medium.mod_ex {
        assert(chain_at(s, 1, medium.mod_ex, medium.what)->Ok_0.chain.len() > 0);
    }
    assert(p.mod_ex =~= Seq::empty());
    let outer = outer_packet_type(multitrack, p.packet_type, medium);
    assert(chain_bytes(p.mod_ex, medium.mod_ex, outer) =~= Seq::empty());
    assert(prelude_bytes(p.mod_ex, p.packet_type, multitrack, p.fourcc, medium) =~= s.subrange(
        1,
        p.end,
    ));
}

} // verus!
