//! Encrypted FLV tags: the header in front of the ciphertext.
//!
//! The body of a tag that went through an encryption filter starts with the
//! number of filters (always 1), the filter's name up to a zero byte, the 24-bit
//! length of the filter's parameters and the parameters. Decryption is not done
//! here.

use vstd::prelude::*;
use crate::error::{other, Error, Result};
#[allow(unused_imports)]
use crate::error::{outcome, Fault};
use crate::text::{cat3, decimal_text, quoted_text, same_text, utf8_text};
#[allow(unused_imports)]
use crate::text::{decimal, quoted};
use crate::wire::{copy_range, get_be24, put_be24, put_bytes};
#[allow(unused_imports)]
use crate::wire::{be24, be24_bytes, from, lemma_be24};
#[allow(unused_imports)]
use vstd::utf8::{decode_utf8, encode_utf8, is_ascii_chars, valid_utf8};

verus! {

/// The one legal number of filters.
pub const NUM_FILTERS: u8 = 1;

/// The filter that encrypts whole packets.
pub const FILTER_NAME_ENCRYPTION: &'static str = "Encryption";

/// The filter that encrypts some packets.
pub const FILTER_NAME_SELECTIVE: &'static str = "SE";

/// Bytes of an initialisation vector.
pub const IV_LEN: usize = 16;

/// The parameters of a filter.
#[allow(inconsistent_fields)]
#[derive(Debug, Clone, PartialEq, Eq)]
pub enum FilterParams {
    /// The packet is encrypted.
    Encryption { iv: [u8; 16] },
    /// The packet is encrypted if there is an initialisation vector.
    Selective { iv: Option<[u8; 16]> },
}

/// The mathematical view of [`FilterParams`].
#[allow(inconsistent_fields)]
pub enum ParamsView {
    Encryption { iv: Seq<u8> },
    Selective { iv: Option<Seq<u8>> },
}

impl View for FilterParams {
    type V = ParamsView;

    open spec fn view(&self) -> ParamsView {
        match *self {
            FilterParams::Encryption { iv } => ParamsView::Encryption { iv: iv@ },
            FilterParams::Selective { iv } => ParamsView::Selective {
                iv: match iv {
                    Some(a) => Some(a@),
                    None => None,
                },
            },
        }
    }
}

impl ParamsView {
    /// The initialisation vector, if the packet is encrypted.
    pub open spec fn iv(self) -> Option<Seq<u8>> {
        match self {
            ParamsView::Encryption { iv } => Some(iv),
            ParamsView::Selective { iv } => iv,
        }
    }

    /// The bytes of these parameters.
    pub open spec fn encoded(self) -> Seq<u8> {
        match self {
            ParamsView::Encryption { iv } => iv,
            ParamsView::Selective { iv: Some(iv) } => seq![0x80u8] + iv,
            ParamsView::Selective { iv: None } => seq![0u8],
        }
    }
}

impl FilterParams {
    /// Whether the packet is encrypted.
    pub fn is_encrypted(&self) -> (b: bool)
        ensures
            b == (self@.iv() is Some),
    {
        match self {
            FilterParams::Encryption { .. } => true,
            FilterParams::Selective { iv } => iv.is_some(),
        }
    }

    /// The initialisation vector, if the packet is encrypted.
    pub fn iv(&self) -> (r: Option<&[u8; 16]>)
        ensures
            match r {
                Some(a) => self@.iv() == Some(a@),
                None => self@.iv() is None,
            },
    {
        match self {
            FilterParams::Encryption { iv } => Some(iv),
            FilterParams::Selective { iv } => iv.as_ref(),
        }
    }

    fn encoded_len(&self) -> (n: usize)
        ensures
            n == self@.encoded().len(),
    {
        match self {
            FilterParams::Encryption { .. } => IV_LEN,
            FilterParams::Selective { iv } => 1 + if iv.is_some() {
                IV_LEN
            } else {
                0
            },
        }
    }

    fn encode_into(&self, out: &mut Vec<u8>)
        ensures
            final(out)@ == old(out)@ + self@.encoded(),
    {
        match self {
            FilterParams::Encryption { iv } => put_bytes(out, iv.as_slice()),
            FilterParams::Selective { iv } => match iv {
                Some(iv) => {
                    out.push(0x80);
                    put_bytes(out, iv.as_slice());
                },
                None => {
                    out.push(0);
                },
            },
        }
        assert(out@ =~= old(out)@ + self@.encoded());
    }
}

/// The body of an encrypted tag.
#[derive(Debug, Clone, PartialEq, Eq)]
pub struct EncryptedTag {
    pub filter_name: String,
    pub params: FilterParams,
    /// Ciphertext, or plain text where a selective filter left it alone.
    pub body: Vec<u8>,
}

/// The mathematical view of [`EncryptedTag`].
pub struct EncryptedView {
    pub filter_name: Seq<char>,
    pub params: ParamsView,
    pub body: Seq<u8>,
}

impl View for EncryptedTag {
    type V = EncryptedView;

    open spec fn view(&self) -> EncryptedView {
        EncryptedView {
            filter_name: self.filter_name@,
            params: self.params@,
            body: self.body@,
        }
    }
}

impl EncryptedView {
    /// The bytes of this tag body.
    pub open spec fn encoded(self) -> Seq<u8> {
        seq![NUM_FILTERS] + encode_utf8(self.filter_name) + seq![0u8] + be24_bytes(
            self.params.encoded().len() as u32,
        ) + self.params.encoded() + self.body
    }
}

impl EncryptedTag {
    /// Whether the body is ciphertext.
    pub fn is_encrypted(&self) -> (b: bool)
        ensures
            b == (self@.params.iv() is Some),
    {
        self.params.is_encrypted()
    }

    /// The initialisation vector, if the body is ciphertext.
    pub fn iv(&self) -> (r: Option<&[u8; 16]>)
        ensures
            match r {
                Some(a) => self@.params.iv() == Some(a@),
                None => self@.params.iv() is None,
            },
    {
        self.params.iv()
    }

    /// The bytes of this tag body.
    pub fn encode(&self) -> (out: Vec<u8>)
        ensures
            out@ == self@.encoded(),
    {
        let mut out: Vec<u8> = Vec::new();
        out.push(NUM_FILTERS);
        put_bytes(&mut out, self.filter_name.as_str().as_bytes());
        out.push(0);
        put_be24(&mut out, self.params.encoded_len() as u32);
        self.params.encode_into(&mut out);
        put_bytes(&mut out, self.body.as_slice());
        assert(out@ =~= self@.encoded());
        out
    }
}

/// The first zero byte from offset `i` on; the length if there is none.
pub open spec fn zero_at(s: Seq<u8>, i: int) -> int
    decreases s.len() - i,
{
    if i >= s.len() {
        s.len() as int
    } else if s[i] == 0 {
        i
    } else {
        zero_at(s, i + 1)
    }
}

/// The parameters of the filter called `name`.
pub open spec fn params_of(name: Seq<char>, p: Seq<u8>) -> core::result::Result<
    ParamsView,
    Fault,
> {
    if name == FILTER_NAME_ENCRYPTION@ {
        if p.len() < 16 {
            Err(
                Fault::Other(
                    "FLV crypt: 'Encryption' FilterParams "@ + decimal(p.len())
                        + " bytes < 16-byte IV (§F.3.2)"@,
                ),
            )
        } else {
            Ok(ParamsView::Encryption { iv: p.subrange(0, 16) })
        }
    } else if name == FILTER_NAME_SELECTIVE@ {
        if p.len() < 1 {
            Err(Fault::Other("FLV crypt: truncated SE EncryptedAU bitfield (§F.3.2)"@))
        } else if p[0] < 0x80 {
            Ok(ParamsView::Selective { iv: None })
        } else if p.len() < 17 {
            Err(
                Fault::Other(
                    "FLV crypt: encrypted SE FilterParams "@ + decimal(p.len())
                        + " bytes < 1 + 16-byte IV (§F.3.2)"@,
                ),
            )
        } else {
            Ok(ParamsView::Selective { iv: Some(p.subrange(1, 17)) })
        }
    } else {
        Err(
            Fault::Other(
                "FLV crypt: unknown FilterName "@ + quoted(name)
                    + " (§F.3.1 defines 'Encryption' / 'SE')"@,
            ),
        )
    }
}

/// The encrypted tag body that `s` holds.
pub open spec fn encrypted_of(s: Seq<u8>) -> core::result::Result<EncryptedView, Fault> {
    let z = zero_at(s, 1);
    let name = s.subrange(1, z);
    let len = be24(s, z + 1) as int;
    if s.len() < 1 {
        Err(Fault::Other("FLV crypt: truncated NumFilters (§F.3.1)"@))
    } else if s[0] != NUM_FILTERS {
        Err(Fault::Other("FLV crypt: NumFilters "@ + decimal(s[0] as nat) + " != 1 (§F.3.1)"@))
    } else if z == s.len() {
        Err(Fault::Other("FLV crypt: unterminated FilterName (§F.3.1)"@))
    } else if !valid_utf8(name) {
        Err(Fault::Other("FLV crypt: FilterName is not UTF-8 (§F.3.1)"@))
    } else if s.len() < z + 4 {
        Err(Fault::Other("FLV crypt: truncated FilterParams Length (§F.3.1)"@))
    } else if s.len() < z + 4 + len {
        Err(
            Fault::Other(
                "FLV crypt: FilterParams Length "@ + decimal(len as nat) + " overruns body (§F.3.1)"@,
            ),
        )
    } else {
        match params_of(decode_utf8(name), s.subrange(z + 4, z + 4 + len)) {
            Err(e) => Err(e),
            Ok(params) => Ok(
                EncryptedView {
                    filter_name: decode_utf8(name),
                    params,
                    body: from(s, z + 4 + len),
                },
            ),
        }
    }
}

fn get_iv(s: &[u8], i: usize) -> (iv: [u8; 16])
    requires
        i + 16 <= s@.len(),
    ensures
        iv@ == s@.subrange(i as int, i + 16),
{
    let iv = [
        s[i],
        s[i + 1],
        s[i + 2],
        s[i + 3],
        s[i + 4],
        s[i + 5],
        s[i + 6],
        s[i + 7],
        s[i + 8],
        s[i + 9],
        s[i + 10],
        s[i + 11],
        s[i + 12],
        s[i + 13],
        s[i + 14],
        s[i + 15],
    ];
    assert(iv@ =~= s@.subrange(i as int, i + 16));
    iv
}

fn parse_params(name: &str, p: &[u8]) -> (r: Result<FilterParams>)
    ensures
        outcome(r) == params_of(name@, p@),
{
    if same_text(name, FILTER_NAME_ENCRYPTION) {
        if p.len() < 16 {
            let n = decimal_text(p.len() as u64);
            return Err(
                Error::Other(
                    cat3(
                        "FLV crypt: 'Encryption' FilterParams ",
                        n.as_str(),
                        " bytes < 16-byte IV (§F.3.2)",
                    ),
                ),
            );
        }
        Ok(FilterParams::Encryption { iv: get_iv(p, 0) })
    } else if same_text(name, FILTER_NAME_SELECTIVE) {
        if p.len() < 1 {
            return Err(other("FLV crypt: truncated SE EncryptedAU bitfield (§F.3.2)"));
        }
        if p[0] < 0x80 {
            return Ok(FilterParams::Selective { iv: None });
        }
        if p.len() < 17 {
            let n = decimal_text(p.len() as u64);
            return Err(
                Error::Other(
                    cat3(
                        "FLV crypt: encrypted SE FilterParams ",
                        n.as_str(),
                        " bytes < 1 + 16-byte IV (§F.3.2)",
                    ),
                ),
            );
        }
        Ok(FilterParams::Selective { iv: Some(get_iv(p, 1)) })
    } else {
        let q = quoted_text(name);
        Err(
            Error::Other(
                cat3(
                    "FLV crypt: unknown FilterName ",
                    q.as_str(),
                    " (§F.3.1 defines 'Encryption' / 'SE')",
                ),
            ),
        )
    }
}

/// Read the body of an encrypted tag. The filter's name says how its parameters
/// are laid out; a name that is not known is refused.
pub fn parse_encrypted_body(body: &[u8]) -> (r: Result<EncryptedTag>)
    ensures
        outcome(r) == encrypted_of(body@),
{
    let n: usize = body.len();
    if n < 1 {
        return Err(other("FLV crypt: truncated NumFilters (§F.3.1)"));
    }
    if body[0] != NUM_FILTERS {
        let count = decimal_text(body[0] as u64);
        return Err(Error::Other(cat3("FLV crypt: NumFilters ", count.as_str(), " != 1 (§F.3.1)")));
    }
    let mut z: usize = 1;
    while z < n && body[z] != 0
        invariant
            1 <= z <= n,
            n == body@.len(),
            zero_at(body@, 1) == zero_at(body@, z as int),
        decreases n - z,
    {
        z = z + 1;
    }
    if z == n {
        return Err(other("FLV crypt: unterminated FilterName (§F.3.1)"));
    }
    let filter_name: String = match utf8_text(vstd::slice::slice_subrange(body, 1, z)) {
        Ok(s) => s,
        Err(_) => {
            return Err(other("FLV crypt: FilterName is not UTF-8 (§F.3.1)"));
        },
    };
    proof {
        broadcast use vstd::utf8::encode_utf8_decode_utf8;

        assert(decode_utf8(encode_utf8(filter_name@)) == filter_name@);
    }
    if n - z < 4 {
        return Err(other("FLV crypt: truncated FilterParams Length (§F.3.1)"));
    }
    let len: usize = get_be24(body, z + 1) as usize;
    let start: usize = z + 4;
    if n - start < len {
        let digits = decimal_text(len as u64);
        return Err(
            Error::Other(
                cat3("FLV crypt: FilterParams Length ", digits.as_str(), " overruns body (§F.3.1)"),
            ),
        );
    }
    let end: usize = start + len;
    match parse_params(filter_name.as_str(), vstd::slice::slice_subrange(body, start, end)) {
        Err(e) => Err(e),
        Ok(params) => Ok(EncryptedTag { filter_name, params, body: copy_range(body, end, n) }),
    }
}

/// Whether a tag's filter name goes with its parameters, and its initialisation
/// vector has 16 bytes.
pub open spec fn names_its_params(t: EncryptedView) -> bool {
    &&& t.params.iv() matches Some(iv) ==> iv.len() == 16
    &&& match t.params {
        ParamsView::Encryption { .. } => t.filter_name == FILTER_NAME_ENCRYPTION@,
        ParamsView::Selective { .. } => t.filter_name == FILTER_NAME_SELECTIVE@,
    }
}

proof fn lemma_zero_after(s: Seq<u8>, i: int, z: int)
    requires
        0 <= i <= z < s.len(),
        s[z] == 0,
        forall|k: int| i <= k < z ==> s[k] != 0,
    ensures
        zero_at(s, i) == z,
    decreases z - i,
{
    if i < z {
        lemma_zero_after(s, i + 1, z);
    }
}

/// A tag body reads back as it was written.
pub proof fn law_encrypted_round_trip(t: EncryptedView)
    requires
        names_its_params(t),
    ensures
        encrypted_of(t.encoded()) == Ok::<EncryptedView, Fault>(t),
{
    let s = t.encoded();
    let name = encode_utf8(t.filter_name);
    let p = t.params.encoded();
    let z = 1 + name.len() as int;
    reveal_strlit("Encryption");
    reveal_strlit("SE");
    assert(is_ascii_chars(t.filter_name));
    vstd::utf8::is_ascii_chars_encode_utf8(t.filter_name);
    vstd::utf8::encode_utf8_valid_utf8(t.filter_name);
    vstd::utf8::encode_utf8_decode_utf8(t.filter_name);
    assert(s[0] == NUM_FILTERS);
    assert forall|k: int| 1 <= k < z implies s[k] != 0 by {
        assert(s[k] == name[k - 1]);
        assert(name[k - 1] == t.filter_name[k - 1] as u8);
    }
    assert(s[z] == 0);
    lemma_zero_after(s, 1, z);
    assert(s.subrange(1, z) =~= name);
    assert(s.subrange(z + 1, z + 4) =~= be24_bytes(p.len() as u32));
    lemma_be24(s, z + 1, p.len() as u32);
    assert(s.subrange(z + 4, z + 4 + p.len()) =~= p);
    assert(from(s, z + 4 + p.len()) =~= t.body);
    match t.params {
        ParamsView::Encryption { iv } => {
            assert(p.subrange(0, 16) =~= iv);
        },
        ParamsView::Selective { iv } => {
            assert("SE"@.len() != "Encryption"@.len());
            if let Some(v) = iv {
                assert(p.subrange(1, 17) =~= v);
            }
        },
    }
}

/// Whatever body parses, its name goes with its parameters, so that writing the tag
/// and reading it again gives the same tag.
pub proof fn law_parsed_encrypted_fits(s: Seq<u8>)
    requires
        encrypted_of(s) is Ok,
    ensures
        names_its_params(encrypted_of(s)->Ok_0),
        encrypted_of(encrypted_of(s)->Ok_0.encoded()) == encrypted_of(s),
{
    law_encrypted_round_trip(encrypted_of(s)->Ok_0);
}

proof fn lemma_name_end(s: Seq<u8>, k: int, z: int)
    requires
        0 <= k <= z < s.len(),
        s[z] == 0,
        forall|i: int| k <= i < z ==> #[trigger] s[i] != 0,
    ensures
        zero_at(s, k) == z,
    decreases z - k,
{
    if k < z {
        lemma_name_end(s, k + 1, z);
    }
}

/// The bytes before a body: one filter, its name with a zero byte behind it, and its
/// parameters with their length in three bytes before them.
pub open spec fn filter_head(name: Seq<u8>, p: Seq<u8>) -> Seq<u8> {
    let n = p.len();
    seq![1u8] + name + seq![
        0u8,
        (n / 0x1_0000) as u8,
        (n / 0x100 % 0x100) as u8,
        (n % 0x100) as u8,
    ] + p
}

/// How an encrypted body is written: `Encryption` has the initialisation vector for its
/// parameters; `SE` has 0x80 and the vector, or one zero byte.
pub proof fn law_encrypted_bodies_are_written(name: Seq<char>, iv: Seq<u8>, body: Seq<u8>)
    requires
        iv.len() == 16,
    ensures
        (EncryptedView { filter_name: name, params: ParamsView::Encryption { iv }, body }).encoded()
            == filter_head(encode_utf8(name), iv) + body,
        (EncryptedView {
            filter_name: name,
            params: ParamsView::Selective { iv: Some(iv) },
            body,
        }).encoded() == filter_head(encode_utf8(name), seq![0x80u8] + iv) + body,
        (EncryptedView {
            filter_name: name,
            params: ParamsView::Selective { iv: None },
            body,
        }).encoded() == filter_head(encode_utf8(name), seq![0u8]) + body,
{
    crate::wire::law_bytes_by_their_value(0, 16, 0);
    crate::wire::law_bytes_by_their_value(0, 17, 0);
    crate::wire::law_bytes_by_their_value(0, 1, 0);
    let e = EncryptedView { filter_name: name, params: ParamsView::Encryption { iv }, body };
    let f = EncryptedView {
        filter_name: name,
        params: ParamsView::Selective { iv: Some(iv) },
        body,
    };
    let g = EncryptedView { filter_name: name, params: ParamsView::Selective { iv: None }, body };
    assert(e.encoded() =~= filter_head(encode_utf8(name), iv) + body);
    assert(f.encoded() =~= filter_head(encode_utf8(name), seq![0x80u8] + iv) + body);
    assert(g.encoded() =~= filter_head(encode_utf8(name), seq![0u8]) + body);
}

/// How an encrypted body is read. `Encryption` takes the first 16 bytes of its parameters
/// for the vector, and needs them; `SE` takes the 16 behind the first where the highest bit
/// of that one is set, and none where it is not. Parameters may be longer.
pub proof fn law_encrypted_bodies_are_read(name: Seq<char>, p: Seq<u8>, body: Seq<u8>)
    requires
        p.len() <= 0xFF_FFFF,
        forall|i: int| 0 <= i < encode_utf8(name).len() ==> #[trigger] encode_utf8(name)[i] != 0,
    ensures
        ({
            let r = encrypted_of(filter_head(encode_utf8(name), p) + body);
            &&& name == "Encryption"@ && p.len() >= 16 ==> r == Ok::<EncryptedView, Fault>(
                EncryptedView {
                    filter_name: name,
                    params: ParamsView::Encryption { iv: p.subrange(0, 16) },
                    body,
                },
            )
            &&& name == "Encryption"@ && p.len() < 16 ==> r is Err
            &&& name == "SE"@ && p.len() >= 17 && p[0] >= 0x80 ==> r == Ok::<EncryptedView, Fault>(
                EncryptedView {
                    filter_name: name,
                    params: ParamsView::Selective { iv: Some(p.subrange(1, 17)) },
                    body,
                },
            )
            &&& name == "SE"@ && 1 <= p.len() < 17 && p[0] >= 0x80 ==> r is Err
            &&& name == "SE"@ && p.len() >= 1 && p[0] < 0x80 ==> r == Ok::<EncryptedView, Fault>(
                EncryptedView {
                    filter_name: name,
                    params: ParamsView::Selective { iv: None },
                    body,
                },
            )
            &&& name == "SE"@ && p.len() == 0 ==> r is Err
            &&& name != "Encryption"@ && name != "SE"@ ==> r is Err
        }),
{
    reveal_strlit("Encryption");
    reveal_strlit("SE");
    assert("Encryption"@.len() == 10 && "SE"@.len() == 2);
    let b = encode_utf8(name);
    let s = filter_head(b, p) + body;
    let z = 1 + b.len() as int;
    let n = p.len();
    vstd::utf8::encode_utf8_valid_utf8(name);
    vstd::utf8::encode_utf8_decode_utf8(name);
    assert(s[0] == 1);
    assert(s[z] == 0);
    assert forall|i: int| 1 <= i < z implies #[trigger] s[i] != 0 by {
        assert(s[i] == b[i - 1]);
    }
    lemma_name_end(s, 1, z);
    assert(s.subrange(1, z) =~= b);
    crate::wire::law_fields_by_their_bytes(s, z + 1);
    assert(s[z + 1] == (n / 0x1_0000) as u8 && s[z + 2] == (n / 0x100 % 0x100) as u8 && s[z + 3]
        == (n % 0x100) as u8);
    assert(be24(s, z + 1) == n);
    assert(s.subrange(z + 4, z + 4 + n) =~= p);
    assert(from(s, z + 4 + n) =~= body);
}

/// What is no encrypted body: nothing, any number of filters but one, a name without an
/// end, and parameters that are cut short.
pub proof fn law_what_is_no_encrypted_body(s: Seq<u8>, z: int)
    ensures
        s.len() == 0 ==> encrypted_of(s) is Err,
        s.len() > 0 && s[0] != 1 ==> encrypted_of(s) is Err,
        s.len() > 0 && (forall|i: int| 1 <= i < s.len() ==> #[trigger] s[i] != 0) ==> encrypted_of(s)
            is Err,
        1 <= z < s.len() && s[z] == 0 && (forall|i: int| 1 <= i < z ==> #[trigger] s[i] != 0) && (
        s.len() < z + 4 || s.len() < z + 4 + s[z + 1] * 0x1_0000 + s[z + 2] * 0x100 + s[z + 3])
            ==> encrypted_of(s) is Err,
{
    if s.len() > 0 && (forall|i: int| 1 <= i < s.len() ==> #[trigger] s[i] != 0) {
        lemma_no_end(s, 1);
    }
    if 1 <= z < s.len() && s[z] == 0 && (forall|i: int| 1 <= i < z ==> #[trigger] s[i] != 0) {
        lemma_name_end(s, 1, z);
        crate::wire::law_fields_by_their_bytes(s, z + 1);
    }
}

proof fn lemma_no_end(s: Seq<u8>, k: int)
    requires
        0 <= k <= s.len(),
        forall|i: int| k <= i < s.len() ==> #[trigger] s[i] != 0,
    ensures
        zero_at(s, k) == s.len(),
    decreases s.len() - k,
{
    if k < s.len() {
        lemma_no_end(s, k + 1);
    }
}

/// A body is ciphertext exactly where it has an initialisation vector; bodies are read and
/// written as is said here.
pub proof fn law_ciphertext_has_a_vector(
    t: &EncryptedTag,
    encrypted: bool,
    vector: Option<&[u8; 16]>,
    out: Vec<u8>,
    s: &[u8],
    r: Result<EncryptedTag>,
)
    requires
        call_ensures(EncryptedTag::is_encrypted, (t,), encrypted),
        call_ensures(EncryptedTag::iv, (t,), vector),
        call_ensures(EncryptedTag::encode, (t,), out),
        call_ensures(parse_encrypted_body, (s,), r),
    ensures
        encrypted == (vector is Some),
        match t@.params {
            ParamsView::Encryption { iv } => vector matches Some(v) && v@ == iv,
            ParamsView::Selective { iv: Some(iv) } => vector matches Some(v) && v@ == iv,
            ParamsView::Selective { iv: None } => vector is None,
        },
        out@ == t@.encoded(),
        outcome(r) == encrypted_of(s@),
{
}

} // verus!
