//! The modifier entries that may stand between an extended header byte and the
//! FourCC.
//!
//! An entry is a size (one byte holding size - 1, or 0xFF and two bytes holding
//! size - 1), that many bytes of data, and a byte with the entry's type in the
//! high nibble and the next packet type in the low one. Entries go on while
//! that packet type is the one that announces an entry.

use vstd::prelude::*;
use crate::error::{Error, Result};
#[allow(unused_imports)]
use crate::error::Fault;
use crate::flv::MOD_EX_TYPE_TIMESTAMP_OFFSET_NANO;
#[allow(unused_imports)]
use crate::model::{lemma_associative, lemma_around_nothing, views};
use crate::text::{cat3, decimal_text};
#[allow(unused_imports)]
use crate::text::decimal;
use crate::wire::{copy_range, get_be16, get_be24, put_be16, put_be24, put_bytes};
#[allow(unused_imports)]
use crate::wire::{be16, be16_bytes, be24, be24_bytes, lemma_be16, lemma_be24};

verus! {

/// One modifier entry.
#[derive(Debug, Clone, PartialEq, Eq)]
pub struct ModEx {
    pub mod_ex_type: u8,
    pub data: Vec<u8>,
}

/// The mathematical view of [`ModEx`].
pub struct ModExView {
    pub mod_ex_type: u8,
    pub data: Seq<u8>,
}

impl View for ModEx {
    type V = ModExView;

    open spec fn view(&self) -> ModExView {
        ModExView { mod_ex_type: self.mod_ex_type, data: self.data@ }
    }
}

impl ModExView {
    /// The nanosecond offset that this entry carries, if it is of that type and
    /// long enough.
    pub open spec fn nano(self) -> Option<u32> {
        if self.mod_ex_type != MOD_EX_TYPE_TIMESTAMP_OFFSET_NANO || self.data.len() < 3 {
            None
        } else {
            Some(be24(self.data, 0))
        }
    }
}

impl ModEx {
    /// The nanosecond offset that this entry carries.
    pub fn timestamp_offset_nano(&self) -> (r: Option<u32>)
        ensures
            r == self@.nano(),
    {
        if self.mod_ex_type != MOD_EX_TYPE_TIMESTAMP_OFFSET_NANO || self.data.len() < 3 {
            return None;
        }
        Some(get_be24(self.data.as_slice(), 0))
    }

    /// An entry that carries a nanosecond offset, of which the low 24 bits are
    /// kept.
    pub fn timestamp_offset_nano_entry(nano: u32) -> (e: ModEx)
        ensures
            e@ == (ModExView {
                mod_ex_type: MOD_EX_TYPE_TIMESTAMP_OFFSET_NANO,
                data: be24_bytes(nano),
            }),
            e@.nano() == Some((nano % 0x100_0000) as u32),
    {
        let mut data: Vec<u8> = Vec::new();
        put_be24(&mut data, nano);
        assert(data@ =~= be24_bytes(nano));
        proof {
            assert(data@.subrange(0, 3) =~= data@);
            lemma_be24(data@, 0, nano);
        }
        ModEx { mod_ex_type: MOD_EX_TYPE_TIMESTAMP_OFFSET_NANO, data }
    }
}

/// The sum of the nanosecond offsets of a run of entries, capped at the largest
/// 32-bit value.
pub open spec fn nano_total(chain: Seq<ModExView>) -> u32
    decreases chain.len(),
{
    if chain.len() == 0 {
        0
    } else {
        let before = nano_total(chain.drop_last());
        match chain.last().nano() {
            None => before,
            Some(n) => if before + n > u32::MAX {
                u32::MAX
            } else {
                (before + n) as u32
            },
        }
    }
}

/// The sum of the nanosecond offsets of a run of entries.
pub fn total_offset_nano(chain: &Vec<ModEx>) -> (n: u32)
    ensures
        n == nano_total(views(chain@)),
{
    let mut total: u32 = 0;
    let mut i: usize = 0;
    while i < chain.len()
        invariant
            i <= chain@.len(),
            total == nano_total(views(chain@).subrange(0, i as int)),
        decreases chain@.len() - i,
    {
        proof {
            let s = views(chain@).subrange(0, i + 1);
            assert(s.drop_last() =~= views(chain@).subrange(0, i as int));
            assert(s.last() == chain@[i as int]@);
        }
        if let Some(n) = chain[i].timestamp_offset_nano() {
            total = total.saturating_add(n);
        }
        i = i + 1;
    }
    assert(views(chain@).subrange(0, i as int) =~= views(chain@));
    total
}

// ---------------------------------------------------------------------------
// Parsing
// ---------------------------------------------------------------------------

/// The error for an entry that ends early; `what` is `video` or `audio`.
pub open spec fn truncated(what: Seq<char>, part: Seq<char>) -> Fault {
    Fault::Other("Enhanced RTMP "@ + what + part)
}

/// An entry, the packet type after it, and where the input goes on.
pub struct EntryView {
    pub entry: ModExView,
    pub next: u8,
    pub end: int,
}

/// The entry at offset `pos`.
pub open spec fn entry_at(s: Seq<u8>, pos: int, what: Seq<char>) -> core::result::Result<
    EntryView,
    Fault,
> {
    if s.len() <= pos {
        Err(truncated(what, " ModEx: truncated reading modExDataSize"@))
    } else if s[pos] == 255 && s.len() < pos + 3 {
        Err(truncated(what, " ModEx: truncated reading 16-bit modExDataSize"@))
    } else {
        let size = if s[pos] == 255 {
            be16(s, pos + 1) + 1
        } else {
            s[pos] + 1
        };
        let start = if s[pos] == 255 {
            pos + 3
        } else {
            pos + 1
        };
        if s.len() < start + size {
            Err(
                truncated(
                    what,
                    " ModEx: truncated reading "@ + decimal(size as nat) + "-byte modExData"@,
                ),
            )
        } else if s.len() < start + size + 1 {
            Err(truncated(what, " ModEx: truncated reading modExType/packetType nibble"@))
        } else {
            let last = s[start + size];
            Ok(
                EntryView {
                    entry: ModExView {
                        mod_ex_type: last / 16,
                        data: s.subrange(start, start + size),
                    },
                    next: last % 16,
                    end: start + size + 1,
                },
            )
        }
    }
}

/// A run of entries, the packet type after it, and where the input goes on.
pub struct ChainView {
    pub chain: Seq<ModExView>,
    pub next: u8,
    pub end: int,
}

/// The run of entries at offset `pos`: it goes on while the packet type after an
/// entry is `again`.
pub open spec fn chain_at(s: Seq<u8>, pos: int, again: u8, what: Seq<char>) -> core::result::Result<
    ChainView,
    Fault,
>
    decreases s.len() - pos,
{
    match entry_at(s, pos, what) {
        Err(e) => Err(e),
        Ok(v) => if v.next != again {
            Ok(ChainView { chain: seq![v.entry], next: v.next, end: v.end })
        } else if v.end <= pos {
            Err(Fault::UnexpectedEof)
        } else {
            continued(seq![v.entry], chain_at(s, v.end, again, what))
        },
    }
}

/// `front` before the rest of a run.
pub open spec fn continued(
    front: Seq<ModExView>,
    rest: core::result::Result<ChainView, Fault>,
) -> core::result::Result<ChainView, Fault> {
    match rest {
        Err(e) => Err(e),
        Ok(c) => Ok(ChainView { chain: front + c.chain, ..c }),
    }
}

proof fn lemma_continued_nothing(r: core::result::Result<ChainView, Fault>)
    ensures
        continued(Seq::empty(), r) == r,
{
    if let Ok(c) = r {
        lemma_around_nothing(c.chain);
    }
}

proof fn lemma_continued_twice(
    a: Seq<ModExView>,
    b: Seq<ModExView>,
    r: core::result::Result<ChainView, Fault>,
)
    ensures
        continued(a, continued(b, r)) == continued(a + b, r),
{
    if let Ok(c) = r {
        lemma_associative(a, b, c.chain);
    }
}

fn truncated_error(what: &str, part: &str) -> (e: Error)
    ensures
        e@ == truncated(what@, part@),
{
    Error::Other(cat3("Enhanced RTMP ", what, part))
}

/// Read the run of entries at `start`: the entries, the packet type after them
/// and where the input goes on.
pub(crate) fn parse_mod_ex_chain(
    payload: &[u8],
    start: usize,
    mod_ex_value: u8,
    what: &str,
) -> (r: Result<(Vec<ModEx>, u8, usize)>)
    requires
        start <= payload@.len(),
    ensures
        match r {
            Ok((chain, next, end)) => {
                &&& start < end <= payload@.len()
                &&& chain_at(payload@, start as int, mod_ex_value, what@) == Ok::<ChainView, Fault>(
                    ChainView { chain: views(chain@), next, end: end as int },
                )
            },
            Err(e) => chain_at(payload@, start as int, mod_ex_value, what@) == Err::<
                ChainView,
                Fault,
            >(e@),
        },
{
    let ghost s = payload@;
    let n: usize = payload.len();
    let mut pos: usize = start;
    let mut chain: Vec<ModEx> = Vec::new();
    proof {
        assert(views(chain@) =~= Seq::empty());
        lemma_continued_nothing(chain_at(s, pos as int, mod_ex_value, what@));
    }
    loop
        invariant
            s == payload@,
            n == s.len(),
            start <= pos <= n,
            chain_at(s, start as int, mod_ex_value, what@) == continued(
                views(chain@),
                chain_at(s, pos as int, mod_ex_value, what@),
            ),
        decreases n - pos,
    {
        if pos >= n {
            return Err(truncated_error(what, " ModEx: truncated reading modExDataSize"));
        }
        let mut size: usize = payload[pos] as usize + 1;
        let mut at: usize = pos + 1;
        if size == 256 {
            if n - at < 2 {
                return Err(
                    truncated_error(what, " ModEx: truncated reading 16-bit modExDataSize"),
                );
            }
            size = get_be16(payload, at) as usize + 1;
            at = at + 2;
        }
        if n - at < size {
            let digits = decimal_text(size as u64);
            let part = cat3(" ModEx: truncated reading ", digits.as_str(), "-byte modExData");
            return Err(truncated_error(what, part.as_str()));
        }
        let data = copy_range(payload, at, at + size);
        at = at + size;
        if at >= n {
            return Err(
                truncated_error(what, " ModEx: truncated reading modExType/packetType nibble"),
            );
        }
        let last: u8 = payload[at];
        let entry = ModEx { mod_ex_type: last / 16, data };
        let next: u8 = last % 16;
        let ghost before = views(chain@);
        let ghost here = entry@;
        chain.push(entry);
        assert(views(chain@) =~= before + seq![here]);
        if next != mod_ex_value {
            return Ok((chain, next, at + 1));
        }
        proof {
            lemma_continued_twice(
                before,
                seq![here],
                chain_at(s, at + 1, mod_ex_value, what@),
            );
        }
        pos = at + 1;
    }
}

// ---------------------------------------------------------------------------
// Building
// ---------------------------------------------------------------------------

/// The size field of an entry with `len` bytes of data. Only 1..=65536 can be
/// said.
pub open spec fn size_bytes(len: int) -> Seq<u8> {
    if 1 <= len <= 255 {
        seq![(len - 1) as u8]
    } else {
        seq![255u8] + be16_bytes(
            if len < 1 {
                0
            } else if len > 0x1_0000 {
                0xFFFF
            } else {
                (len - 1) as u16
            },
        )
    }
}

/// An entry, with the packet type after it.
pub open spec fn entry_bytes(e: ModExView, next: u8) -> Seq<u8> {
    size_bytes(e.data.len() as int) + e.data + seq![(e.mod_ex_type % 16 * 16 + next % 16) as u8]
}

/// A run of entries, with `again` after each but the last and `ending` after that.
pub open spec fn chain_bytes(chain: Seq<ModExView>, again: u8, ending: u8) -> Seq<u8>
    decreases chain.len(),
{
    if chain.len() == 0 {
        Seq::empty()
    } else {
        let next = if chain.len() > 1 {
            again
        } else {
            ending
        };
        entry_bytes(chain[0], next) + chain_bytes(
            chain.subrange(1, chain.len() as int),
            again,
            ending,
        )
    }
}

fn put_entry(out: &mut Vec<u8>, e: &ModEx, next: u8)
    ensures
        final(out)@ == old(out)@ + entry_bytes(e@, next),
{
    let len: usize = e.data.len();
    if len >= 1 && len <= 255 {
        out.push((len - 1) as u8);
    } else {
        out.push(255);
        let v: u16 = if len < 1 {
            0
        } else if len > 0x1_0000 {
            0xFFFF
        } else {
            (len - 1) as u16
        };
        put_be16(out, v);
    }
    assert(out@ =~= old(out)@ + size_bytes(len as int));
    put_bytes(out, e.data.as_slice());
    out.push(e.mod_ex_type % 16 * 16 + next % 16);
    assert(out@ =~= old(out)@ + entry_bytes(e@, next));
}

/// Append a run of entries, with `mod_ex_value` after each but the last and
/// `real_packet_type` after that.
pub(crate) fn build_mod_ex_chain(
    out: &mut Vec<u8>,
    chain: &Vec<ModEx>,
    mod_ex_value: u8,
    real_packet_type: u8,
)
    ensures
        final(out)@ == old(out)@ + chain_bytes(views(chain@), mod_ex_value, real_packet_type),
{
    let ghost all = views(chain@);
    let mut i: usize = 0;
    assert(all.subrange(0, all.len() as int) =~= all);
    while i < chain.len()
        invariant
            all == views(chain@),
            i <= chain@.len(),
            out@ + chain_bytes(
                all.subrange(i as int, all.len() as int),
                mod_ex_value,
                real_packet_type,
            ) == old(out)@ + chain_bytes(all, mod_ex_value, real_packet_type),
        decreases chain@.len() - i,
    {
        let ghost was = out@;
        let ghost rest = all.subrange(i as int, all.len() as int);
        let next: u8 = if chain.len() - i > 1 {
            mod_ex_value
        } else {
            real_packet_type
        };
        put_entry(out, &chain[i], next);
        proof {
            assert(rest.subrange(1, rest.len() as int) =~= all.subrange(i + 1, all.len() as int));
            lemma_associative(
                was,
                entry_bytes(rest[0], next),
                chain_bytes(
                    all.subrange(i + 1, all.len() as int),
                    mod_ex_value,
                    real_packet_type,
                ),
            );
        }
        i = i + 1;
    }
    proof {
        lemma_around_nothing(out@);
    }
}

// ---------------------------------------------------------------------------
// Laws
// ---------------------------------------------------------------------------

/// Whether an entry can be put on the wire as it is.
pub open spec fn entry_fits(e: ModExView) -> bool {
    e.mod_ex_type < 16 && 1 <= e.data.len() <= 0x1_0000
}

proof fn lemma_entry_reads_back(
    pre: Seq<u8>,
    e: ModExView,
    next: u8,
    post: Seq<u8>,
    what: Seq<char>,
)
    requires
        entry_fits(e),
        next < 16,
    ensures
        entry_at(pre + entry_bytes(e, next) + post, pre.len() as int, what) == Ok::<
            EntryView,
            Fault,
        >(
            EntryView {
                entry: e,
                next,
                end: (pre.len() + entry_bytes(e, next).len()) as int,
            },
        ),
{
    let p = pre.len() as int;
    let len = e.data.len() as int;
    let b = entry_bytes(e, next);
    let s = pre + b + post;
    let z = size_bytes(len);
    assert(s[p] == b[0]);
    assert(b[0] == z[0]);
    if len > 255 {
        assert(s.subrange(p + 1, p + 3) =~= be16_bytes((len - 1) as u16));
        lemma_be16(s, p + 1, (len - 1) as u16);
    }
    assert(s.subrange(p + z.len(), p + z.len() + len) =~= e.data);
    assert(s[p + z.len() + len] == b[z.len() + len]);
}

/// A run of entries reads back as it was written, from wherever it stands.
/// Entries without data, or with more than 65536 bytes of it, are left out: the
/// size field cannot say so.
pub proof fn law_mod_ex_chain_round_trip(
    pre: Seq<u8>,
    chain: Seq<ModExView>,
    again: u8,
    ending: u8,
    post: Seq<u8>,
    what: Seq<char>,
)
    requires
        chain.len() > 0,
        forall|i: int| 0 <= i < chain.len() ==> entry_fits(#[trigger] chain[i]),
        again < 16,
        ending < 16,
        ending != again,
    ensures
        chain_at(pre + chain_bytes(chain, again, ending) + post, pre.len() as int, again, what)
            == Ok::<ChainView, Fault>(
            ChainView {
                chain,
                next: ending,
                end: (pre.len() + chain_bytes(chain, again, ending).len()) as int,
            },
        ),
    decreases chain.len(),
{
    let next = if chain.len() > 1 {
        again
    } else {
        ending
    };
    let tail = chain.subrange(1, chain.len() as int);
    let first = entry_bytes(chain[0], next);
    let rest = chain_bytes(tail, again, ending);
    let s = pre + chain_bytes(chain, again, ending) + post;
    assert(s =~= pre + first + (rest + post));
    lemma_entry_reads_back(pre, chain[0], next, rest + post, what);
    assert(first.len() > 0);
    if chain.len() == 1 {
        assert(rest =~= Seq::empty());
        assert(chain =~= seq![chain[0]]);
    } else {
        assert forall|i: int| 0 <= i < tail.len() implies entry_fits(#[trigger] tail[i]) by {
            assert(tail[i] == chain[i + 1]);
        }
        assert(s =~= (pre + first) + rest + post);
        law_mod_ex_chain_round_trip(pre + first, tail, again, ending, post, what);
        assert(seq![chain[0]] + tail =~= chain);
    }
}

/// Whatever entries parse can be put on the wire again, and the run ends with
/// another packet type than the one that announces an entry.
pub proof fn lemma_parsed_chain_fits(s: Seq<u8>, pos: int, again: u8, what: Seq<char>)
    requires
        0 <= pos,
        chain_at(s, pos, again, what) is Ok,
    ensures
        ({
            let c = chain_at(s, pos, again, what)->Ok_0;
            &&& forall|i: int| 0 <= i < c.chain.len() ==> entry_fits(#[trigger] c.chain[i])
            &&& c.chain.len() > 0
            &&& c.next < 16
            &&& c.next != again
            &&& pos < c.end <= s.len()
        }),
    decreases s.len() - pos,
{
    let v = entry_at(s, pos, what)->Ok_0;
    assert(entry_fits(v.entry));
    if v.next == again {
        lemma_parsed_chain_fits(s, v.end, again, what);
    }
}

} // verus!
