//! The three on-disk record layouts and the version-aware record decoder.
//!
//! Every layout shares the same prefix: a NUL-terminated path, an 8-byte
//! big-endian event id and a 4-byte big-endian flag bitmask.  Later versions
//! append an 8-byte little-endian node id, and the newest version a trailing
//! 4-byte word that is skipped but kept visible.
use vstd::prelude::*;

verus! {

use vstd::slice::slice_subrange;
use crate::flags::{self, FlagCodec, Vocab};
use crate::record::{Record, RecordV};

/// The numeric value of the big-endian byte sequence `b[pos .. pos + 8]`.
pub open spec fn spec_u64_be(b: Seq<u8>, pos: int) -> u64 {
    ((b[pos] as int) * 0x100_0000_0000_0000 + (b[pos + 1] as int) * 0x1_0000_0000_0000 + (b[pos + 2]
        as int) * 0x100_0000_0000 + (b[pos + 3] as int) * 0x1_0000_0000 + (b[pos + 4] as int)
        * 0x100_0000 + (b[pos + 5] as int) * 0x1_0000 + (b[pos + 6] as int) * 0x100 + (b[pos + 7]
        as int)) as u64
}

/// The numeric value of the big-endian byte sequence `b[pos .. pos + 4]`.
pub open spec fn spec_u32_be(b: Seq<u8>, pos: int) -> u32 {
    ((b[pos] as int) * 0x100_0000 + (b[pos + 1] as int) * 0x1_0000 + (b[pos + 2] as int) * 0x100 + (
    b[pos + 3] as int)) as u32
}

/// The numeric value of the little-endian byte sequence `b[pos .. pos + 8]`.
pub open spec fn spec_u64_le(b: Seq<u8>, pos: int) -> u64 {
    ((b[pos + 7] as int) * 0x100_0000_0000_0000 + (b[pos + 6] as int) * 0x1_0000_0000_0000 + (b[pos
        + 5] as int) * 0x100_0000_0000 + (b[pos + 4] as int) * 0x1_0000_0000 + (b[pos + 3] as int)
        * 0x100_0000 + (b[pos + 2] as int) * 0x1_0000 + (b[pos + 1] as int) * 0x100 + (b[pos]
        as int)) as u64
}

/// The numeric value of the little-endian byte sequence `b[pos .. pos + 4]`.
pub open spec fn spec_u32_le(b: Seq<u8>, pos: int) -> u32 {
    ((b[pos + 3] as int) * 0x100_0000 + (b[pos + 2] as int) * 0x1_0000 + (b[pos + 1] as int) * 0x100
        + (b[pos] as int)) as u32
}

/// Read an 8-byte big-endian integer.
pub fn read_u64_be(b: &[u8], pos: usize) -> (r: u64)
    requires
        pos + 8 <= b@.len(),
    ensures
        r == spec_u64_be(b@, pos as int),
{
    let n = b.len();
    assert(pos + 8 <= n);
    (b[pos] as u64) * 0x100_0000_0000_0000 + (b[pos + 1] as u64) * 0x1_0000_0000_0000 + (b[pos + 2]
        as u64) * 0x100_0000_0000 + (b[pos + 3] as u64) * 0x1_0000_0000 + (b[pos + 4] as u64)
        * 0x100_0000 + (b[pos + 5] as u64) * 0x1_0000 + (b[pos + 6] as u64) * 0x100 + (b[pos + 7]
        as u64)
}

/// Read a 4-byte big-endian integer.
pub fn read_u32_be(b: &[u8], pos: usize) -> (r: u32)
    requires
        pos + 4 <= b@.len(),
    ensures
        r == spec_u32_be(b@, pos as int),
{
    let n = b.len();
    assert(pos + 4 <= n);
    (b[pos] as u32) * 0x100_0000 + (b[pos + 1] as u32) * 0x1_0000 + (b[pos + 2] as u32) * 0x100 + (
    b[pos + 3] as u32)
}

/// Read an 8-byte little-endian integer.
pub fn read_u64_le(b: &[u8], pos: usize) -> (r: u64)
    requires
        pos + 8 <= b@.len(),
    ensures
        r == spec_u64_le(b@, pos as int),
{
    let n = b.len();
    assert(pos + 8 <= n);
    (b[pos + 7] as u64) * 0x100_0000_0000_0000 + (b[pos + 6] as u64) * 0x1_0000_0000_0000 + (b[pos
        + 5] as u64) * 0x100_0000_0000 + (b[pos + 4] as u64) * 0x1_0000_0000 + (b[pos + 3] as u64)
        * 0x100_0000 + (b[pos + 2] as u64) * 0x1_0000 + (b[pos + 1] as u64) * 0x100 + (b[pos]
        as u64)
}

/// Read a 4-byte little-endian integer.
pub fn read_u32_le(b: &[u8], pos: usize) -> (r: u32)
    requires
        pos + 4 <= b@.len(),
    ensures
        r == spec_u32_le(b@, pos as int),
{
    let n = b.len();
    assert(pos + 4 <= n);
    (b[pos + 3] as u32) * 0x100_0000 + (b[pos + 2] as u32) * 0x1_0000 + (b[pos + 1] as u32) * 0x100
        + (b[pos] as u32)
}

/// The position of the first NUL byte at or after `pos`, if any.
pub open spec fn find_nul(b: Seq<u8>, pos: int) -> Option<int>
    decreases b.len() - pos when 0 <= pos <= b.len()
{
    if pos >= b.len() {
        None
    } else if b[pos] == 0 {
        Some(pos)
    } else {
        find_nul(b, pos + 1)
    }
}

/// What `find_nul` finds: the first NUL, or the absence of one.
pub proof fn lemma_find_nul(b: Seq<u8>, pos: int)
    requires
        0 <= pos <= b.len(),
    ensures
        match find_nul(b, pos) {
            Some(i) => pos <= i < b.len() && b[i] == 0 && (forall|j: int|
                pos <= j < i ==> b[j] != 0),
            None => forall|j: int| pos <= j < b.len() ==> b[j] != 0,
        },
    decreases b.len() - pos,
{
    if pos < b.len() && b[pos] != 0 {
        lemma_find_nul(b, pos + 1);
    }
}

/// Find the first NUL byte at or after `pos`.
fn find_nul_exec(b: &[u8], pos: usize) -> (r: Option<usize>)
    requires
        pos <= b@.len(),
    ensures
        match r {
            Some(i) => find_nul(b@, pos as int) == Some(i as int),
            None => find_nul(b@, pos as int) is None,
        },
{
    let mut i: usize = pos;
    while i < b.len()
        invariant
            pos <= i <= b@.len(),
            find_nul(b@, pos as int) == find_nul(b@, i as int),
        decreases b@.len() - i,
    {
        if b[i] == 0 {
            return Some(i);
        }
        i += 1;
    }
    None
}

/// What the lossy UTF-8 decoding of a byte string reads as.
pub uninterp spec fn lossy_utf8(bytes: Seq<u8>) -> Seq<char>;

/// Relies on String::from_utf8_lossy: the decoding is a function of the
/// bytes alone, and no bytes decode to no text.
#[verifier::external_body]
fn from_utf8_lossy(b: &[u8]) -> (s: String)
    ensures
        s@ == lossy_utf8(b@),
        b@.len() == 0 ==> s@.len() == 0,
{
    String::from_utf8_lossy(b).into_owned()
}

/// A decode error; every variant is fatal for the file it arose in.
#[derive(Clone, Copy, Debug, PartialEq, Eq, Structural)]
pub enum ParseError {
    /// The stream ended inside a record's fixed-width fields.
    Truncated,
    /// A page tag that names no known format version.
    UnsupportedVersion,
    /// A page consumed more bytes than its declared length.
    PageLengthMismatch,
}

/// What decoding one record at `pos` yields: `Ok(None)` when no NUL
/// terminator is found (the natural end of the record stream), an error when
/// the bytes end inside the fixed-width fields, and otherwise the consumed
/// byte count and the record's model.
pub open spec fn spec_parse_record(
    b: Seq<u8>,
    pos: int,
    has_node_id: bool,
    has_extra_id: bool,
) -> Result<Option<(int, RecordV)>, ParseError> {
    match find_nul(b, pos) {
        None => Ok(None),
        Some(nul) => {
            let after = nul + 1;
            let fixed = 12 + (if has_node_id {
                8int
            } else {
                0int
            }) + (if has_extra_id {
                4int
            } else {
                0int
            });
            if after + fixed > b.len() {
                Err(ParseError::Truncated)
            } else {
                let flag = spec_u32_be(b, after + 8);
                Ok(
                    Some(
                        (
                            after - pos + fixed,
                            RecordV {
                                path: lossy_utf8(b.subrange(pos, nul)),
                                event_id: spec_u64_be(b, after),
                                flag: flag,
                                flags: flags::spec_render(Vocab::Norm, flag),
                                alt_flags: flags::spec_render(Vocab::Alt, flag),
                                node_id: if has_node_id {
                                    Some(spec_u64_le(b, after + 12))
                                } else {
                                    None
                                },
                                extra_id: if has_extra_id {
                                    Some(
                                        spec_u32_le(
                                            b,
                                            after + 12 + (if has_node_id {
                                                8int
                                            } else {
                                                0int
                                            }),
                                        ),
                                    )
                                } else {
                                    None
                                },
                            },
                        ),
                    ),
                )
            }
        },
    }
}

/// The model of an executable record-decode result.
pub open spec fn record_result_model(r: Result<Option<(usize, Record)>, ParseError>) -> Result<
    Option<(int, RecordV)>,
    ParseError,
> {
    match r {
        Ok(None) => Ok(None),
        Ok(Some((n, rec))) => Ok(Some((n as int, rec@))),
        Err(e) => Err(e),
    }
}

/// A decoded record takes at least its 13-byte minimum and never reads past
/// the end of the bytes; a node id is present exactly for layouts that carry
/// one, the trailing word exactly for the layout that carries one.
pub proof fn lemma_parse_record_bounds(b: Seq<u8>, pos: int, has_node_id: bool, has_extra_id: bool)
    requires
        0 <= pos <= b.len(),
    ensures
        spec_parse_record(b, pos, has_node_id, has_extra_id) matches Ok(Some((n, rec))) ==> {
            &&& 13 <= n
            &&& pos + n <= b.len()
            &&& (rec.node_id is Some <==> has_node_id)
            &&& (rec.extra_id is Some <==> has_extra_id)
        },
{
    lemma_find_nul(b, pos);
}

/// The record decoder for one format version: which optional suffix fields
/// the layout carries.
#[derive(Clone, Copy, Debug, PartialEq, Eq, Structural)]
pub struct RecordParser {
    pub has_node_id: bool,
    pub has_extra_id: bool,
}

impl RecordParser {
    /// Decode one record starting at `pos`: the NUL-terminated path, the
    /// big-endian event id and flag bitmask, and the version-specific
    /// suffix.  `Ok(None)` signals that no record starts here.
    pub fn parse_record(&self, b: &[u8], pos: usize, codec: &mut FlagCodec) -> (r: Result<
        Option<(usize, Record)>,
        ParseError,
    >)
        requires
            pos <= b@.len(),
            old(codec).wf(),
        ensures
            final(codec).wf(),
            record_result_model(r) == spec_parse_record(
                b@,
                pos as int,
                self.has_node_id,
                self.has_extra_id,
            ),
    {
        proof {
            lemma_find_nul(b@, pos as int);
        }
        let n = b.len();
        let nul = match find_nul_exec(b, pos) {
            None => {
                return Ok(None);
            },
            Some(i) => i,
        };
        assert(nul < n);
        let after = nul + 1;
        let fixed: usize = 12 + (if self.has_node_id {
            8
        } else {
            0
        }) + (if self.has_extra_id {
            4
        } else {
            0
        });
        if b.len() - after < fixed {
            return Err(ParseError::Truncated);
        }
        let path = from_utf8_lossy(slice_subrange(b, pos, nul));
        let event_id = read_u64_be(b, after);
        let flag = read_u32_be(b, after + 8);
        let rendered = codec.render(flag);
        let node_id = if self.has_node_id {
            Some(read_u64_le(b, after + 12))
        } else {
            None
        };
        let extra_id = if self.has_extra_id {
            Some(read_u32_le(b, after + 12 + (if self.has_node_id {
                8
            } else {
                0
            })))
        } else {
            None
        };
        let consumed = after - pos + fixed;
        Ok(
            Some(
                (
                    consumed,
                    Record {
                        path,
                        event_id,
                        flag,
                        flags: rendered.norm,
                        alt_flags: rendered.alt,
                        node_id,
                        extra_id,
                    },
                ),
            ),
        )
    }
}

/// Marker for the oldest record layout: no suffix fields.
pub struct V1;

/// Marker for the middle record layout: a little-endian node id.
pub struct V2;

/// Marker for the newest record layout: a node id and a trailing word.
pub struct V3;

impl V1 {
    /// The decoder for this layout.
    pub fn parser() -> (p: RecordParser)
        ensures
            p == (RecordParser { has_node_id: false, has_extra_id: false }),
    {
        RecordParser { has_node_id: false, has_extra_id: false }
    }
}

impl V2 {
    /// The decoder for this layout.
    pub fn parser() -> (p: RecordParser)
        ensures
            p == (RecordParser { has_node_id: true, has_extra_id: false }),
    {
        RecordParser { has_node_id: true, has_extra_id: false }
    }
}

impl V3 {
    /// The decoder for this layout.
    pub fn parser() -> (p: RecordParser)
        ensures
            p == (RecordParser { has_node_id: true, has_extra_id: true }),
    {
        RecordParser { has_node_id: true, has_extra_id: true }
    }
}

/// The recognized format versions.
#[derive(Clone, Copy, Debug, PartialEq, Eq, Structural)]
pub enum Version {
    Ver1,
    Ver2,
    Ver3,
}

/// Whether the layout of `v` carries a node id.
pub open spec fn spec_has_node_id(v: Version) -> bool {
    match v {
        Version::Ver1 => false,
        Version::Ver2 => true,
        Version::Ver3 => true,
    }
}

/// Whether the layout of `v` carries the trailing extra word.
pub open spec fn spec_has_extra_id(v: Version) -> bool {
    match v {
        Version::Ver1 => false,
        Version::Ver2 => false,
        Version::Ver3 => true,
    }
}

/// The version named by the 4-byte tag at `pos`, if it is a known tag.
pub open spec fn spec_version_of_tag(b: Seq<u8>, pos: int) -> Option<Version> {
    if b[pos] == 0x31 && b[pos + 1] == 0x53 && b[pos + 2] == 0x4c && b[pos + 3] == 0x44 {
        Some(Version::Ver1)
    } else if b[pos] == 0x32 && b[pos + 1] == 0x53 && b[pos + 2] == 0x4c && b[pos + 3] == 0x44 {
        Some(Version::Ver2)
    } else if b[pos] == 0x33 && b[pos + 1] == 0x53 && b[pos + 2] == 0x4c && b[pos + 3] == 0x44 {
        Some(Version::Ver3)
    } else {
        None
    }
}

impl Version {
    /// Read the 4 tag bytes at `pos` and name the version they declare;
    /// `None` for an unrecognized tag.
    pub fn from_reader(b: &[u8], pos: usize) -> (r: Option<Version>)
        requires
            pos + 4 <= b@.len(),
        ensures
            r == spec_version_of_tag(b@, pos as int),
    {
        let n = b.len();
        assert(pos + 4 <= n);
        if b[pos + 1] == 0x53 && b[pos + 2] == 0x4c && b[pos + 3] == 0x44 {
            if b[pos] == 0x31 {
                Some(Version::Ver1)
            } else if b[pos] == 0x32 {
                Some(Version::Ver2)
            } else if b[pos] == 0x33 {
                Some(Version::Ver3)
            } else {
                None
            }
        } else {
            None
        }
    }

    /// The record decoder for this version's layout.
    pub fn get_parser(&self) -> (p: RecordParser)
        ensures
            p.has_node_id == spec_has_node_id(*self),
            p.has_extra_id == spec_has_extra_id(*self),
    {
        match self {
            Version::Ver1 => V1::parser(),
            Version::Ver2 => V2::parser(),
            Version::Ver3 => V3::parser(),
        }
    }
}

} // verus!
