//! Page framing: read page headers, decode records against the declared
//! page length, and fail closed on any framing mismatch without losing
//! previously decoded records.
use vstd::prelude::*;

verus! {

use crate::flags::FlagCodec;
use crate::record::{Record, RecordFilter, RecordV};
use crate::version::{
    ParseError,
    Version,
    lemma_parse_record_bounds,
    spec_has_extra_id,
    spec_has_node_id,
    spec_parse_record,
    spec_u32_le,
    spec_version_of_tag,
    read_u32_le,
};

/// How a page's record stream ended.
#[derive(Clone, Copy, Debug, PartialEq, Eq, Structural)]
pub enum PageStatus {
    /// The byte stream ran out of records: the outermost end of input.
    Eof,
    /// The page consumed exactly its declared length.
    Closed,
    /// Decoding this page failed.
    Failed(ParseError),
}

/// What decoding one page's records yields: the records in decode order, how
/// the page ended, and the position after it.
#[verifier::ext_equal]
pub ghost struct PageOutcome {
    pub recs: Seq<RecordV>,
    pub status: PageStatus,
    pub next: int,
}

/// `p` with `pre` prepended to its records.
pub open spec fn page_prepend(pre: Seq<RecordV>, p: PageOutcome) -> PageOutcome {
    PageOutcome { recs: pre + p.recs, status: p.status, next: p.next }
}

/// Decode records from `pos` against a page that declared `p_len` bytes, of
/// which `read` are already consumed.  After each record the consumed count
/// is held against the declared length: equality closes the page, excess is
/// a framing error, and a missing record terminator is the outermost end of
/// input.
pub open spec fn spec_page(
    b: Seq<u8>,
    pos: int,
    hn: bool,
    he: bool,
    p_len: int,
    read: int,
) -> PageOutcome
    decreases b.len() - pos
        when 0 <= pos <= b.len()
        via spec_page_decreases
{
    match spec_parse_record(b, pos, hn, he) {
        Ok(None) => PageOutcome { recs: Seq::empty(), status: PageStatus::Eof, next: pos },
        Err(e) => PageOutcome { recs: Seq::empty(), status: PageStatus::Failed(e), next: pos },
        Ok(Some((n, rec))) => {
            if read + n == p_len {
                PageOutcome { recs: seq![rec], status: PageStatus::Closed, next: pos + n }
            } else if read + n > p_len {
                PageOutcome {
                    recs: seq![rec],
                    status: PageStatus::Failed(ParseError::PageLengthMismatch),
                    next: pos + n,
                }
            } else {
                page_prepend(seq![rec], spec_page(b, pos + n, hn, he, p_len, read + n))
            }
        },
    }
}

#[via_fn]
proof fn spec_page_decreases(b: Seq<u8>, pos: int, hn: bool, he: bool, p_len: int, read: int) {
    lemma_parse_record_bounds(b, pos, hn, he);
}

/// A page never reads past the end of the bytes, and a cleanly closed page
/// consumed at least one record.
proof fn lemma_spec_page_next(b: Seq<u8>, pos: int, hn: bool, he: bool, p_len: int, read: int)
    requires
        0 <= pos <= b.len(),
    ensures
        pos <= spec_page(b, pos, hn, he, p_len, read).next <= b.len(),
        spec_page(b, pos, hn, he, p_len, read).status is Closed ==> pos < spec_page(
            b,
            pos,
            hn,
            he,
            p_len,
            read,
        ).next,
    decreases b.len() - pos,
{
    lemma_parse_record_bounds(b, pos, hn, he);
    match spec_parse_record(b, pos, hn, he) {
        Ok(Some((n, rec))) => {
            if read + n < p_len {
                lemma_spec_page_next(b, pos + n, hn, he, p_len, read + n);
            }
        },
        _ => {},
    }
}

/// Law: every record decoded from one page carries a node id exactly when
/// the page's layout has one, and the trailing extra word exactly when the
/// layout has that.
pub proof fn lemma_page_records_fields(
    b: Seq<u8>,
    pos: int,
    hn: bool,
    he: bool,
    p_len: int,
    read: int,
)
    requires
        0 <= pos <= b.len(),
    ensures
        forall|k: int|
            0 <= k < spec_page(b, pos, hn, he, p_len, read).recs.len() ==> {
                let rec = #[trigger] spec_page(b, pos, hn, he, p_len, read).recs[k];
                (rec.node_id is Some <==> hn) && (rec.extra_id is Some <==> he)
            },
    decreases b.len() - pos,
{
    lemma_parse_record_bounds(b, pos, hn, he);
    match spec_parse_record(b, pos, hn, he) {
        Ok(Some((n, rec))) => {
            if read + n < p_len {
                lemma_page_records_fields(b, pos + n, hn, he, p_len, read + n);
                let tail = spec_page(b, pos + n, hn, he, p_len, read + n).recs;
                assert(forall|k: int|
                    0 <= k < (seq![rec] + tail).len() ==> (#[trigger] (seq![rec] + tail)[k]) == (
                    if k == 0 {
                        rec
                    } else {
                        tail[k - 1]
                    }));
            }
        },
        _ => {},
    }
}

/// Decode a whole byte stream: consecutive pages until the end of input.
/// The result is every record, in decode order, and how decoding ended:
/// `None` on a clean end of stream at a page boundary, the error otherwise.
/// The records decoded before an error stand regardless of it.
pub open spec fn spec_file(b: Seq<u8>, pos: int) -> (Seq<RecordV>, Option<ParseError>)
    decreases b.len() - pos
        when 0 <= pos <= b.len()
        via spec_file_decreases
{
    if pos + 4 > b.len() {
        (Seq::empty(), None)
    } else {
        match spec_version_of_tag(b, pos) {
            None => (Seq::empty(), Some(ParseError::UnsupportedVersion)),
            Some(v) => {
                if pos + 12 > b.len() {
                    (Seq::empty(), Some(ParseError::Truncated))
                } else {
                    let page = spec_page(
                        b,
                        pos + 12,
                        spec_has_node_id(v),
                        spec_has_extra_id(v),
                        spec_u32_le(b, pos + 8) as int,
                        12,
                    );
                    match page.status {
                        PageStatus::Eof => (page.recs, None),
                        PageStatus::Failed(e) => (page.recs, Some(e)),
                        PageStatus::Closed => {
                            let rest = spec_file(b, page.next);
                            (page.recs + rest.0, rest.1)
                        },
                    }
                }
            },
        }
    }
}

#[via_fn]
proof fn spec_file_decreases(b: Seq<u8>, pos: int) {
    if pos + 12 <= b.len() {
        match spec_version_of_tag(b, pos) {
            Some(v) => {
                lemma_spec_page_next(
                    b,
                    pos + 12,
                    spec_has_node_id(v),
                    spec_has_extra_id(v),
                    spec_u32_le(b, pos + 8) as int,
                    12,
                );
            },
            None => {},
        }
    }
}

/// The page that starts at `pos` under version `v`'s layout: its records,
/// how it ended, and the position after it.
pub open spec fn spec_page_at(b: Seq<u8>, pos: int, v: Version) -> PageOutcome {
    spec_page(
        b,
        pos + 12,
        spec_has_node_id(v),
        spec_has_extra_id(v),
        spec_u32_le(b, pos + 8) as int,
        12,
    )
}

/// Law: a page closes exactly at its declared length: from the page header
/// on, a cleanly closed page consumed precisely the bytes the header
/// declared, no more and no fewer.
pub proof fn lemma_closed_page_consumes_declared(
    b: Seq<u8>,
    pos: int,
    hn: bool,
    he: bool,
    p_len: int,
    read: int,
)
    requires
        0 <= pos <= b.len(),
    ensures
        spec_page(b, pos, hn, he, p_len, read).status is Closed ==> spec_page(
            b,
            pos,
            hn,
            he,
            p_len,
            read,
        ).next - pos == p_len - read,
    decreases b.len() - pos,
{
    lemma_parse_record_bounds(b, pos, hn, he);
    match spec_parse_record(b, pos, hn, he) {
        Ok(Some((n, rec))) => {
            if read + n < p_len {
                lemma_closed_page_consumes_declared(b, pos + n, hn, he, p_len, read + n);
            }
        },
        _ => {},
    }
}

/// Law: page framing composes: when the page at `pos` closes cleanly, the
/// stream decoded from `pos` is that page's records followed, in order, by
/// the records of the stream after it, and it ends the way the rest ends.
pub proof fn lemma_closed_page_frames(b: Seq<u8>, pos: int, v: Version)
    requires
        0 <= pos,
        pos + 12 <= b.len(),
        spec_version_of_tag(b, pos) == Some(v),
        spec_page_at(b, pos, v).status is Closed,
    ensures
        pos < spec_page_at(b, pos, v).next <= b.len(),
        spec_file(b, pos).0 == spec_page_at(b, pos, v).recs + spec_file(
            b,
            spec_page_at(b, pos, v).next,
        ).0,
        spec_file(b, pos).1 == spec_file(b, spec_page_at(b, pos, v).next).1,
{
    lemma_spec_page_next(
        b,
        pos + 12,
        spec_has_node_id(v),
        spec_has_extra_id(v),
        spec_u32_le(b, pos + 8) as int,
        12,
    );
}

/// The predicate a filter imposes on record models.
pub open spec fn accept_pred<F: RecordFilter>(f: F) -> spec_fn(RecordV) -> bool {
    |rv: RecordV| f.spec_filter(rv)
}

/// The records of `recs` that `f` accepts, in order.
pub open spec fn filter_records<F: RecordFilter>(recs: Seq<RecordV>, f: F) -> Seq<RecordV> {
    recs.filter(accept_pred(f))
}

/// The models of a list of records.
pub open spec fn records_view(recs: Seq<Record>) -> Seq<RecordV> {
    recs.map_values(|r: Record| r@)
}

proof fn lemma_filter_empty<F: RecordFilter>(f: F)
    ensures
        filter_records(Seq::empty(), f) == Seq::<RecordV>::empty(),
{
    reveal_with_fuel(Seq::filter, 2);
}

proof fn lemma_filter_single<F: RecordFilter>(f: F, rv: RecordV)
    ensures
        filter_records(seq![rv], f) == if f.spec_filter(rv) {
            seq![rv]
        } else {
            Seq::<RecordV>::empty()
        },
{
    reveal_with_fuel(Seq::filter, 2);
    assert(seq![rv].drop_last() =~= Seq::<RecordV>::empty());
    assert(seq![rv].last() == rv);
    assert(Seq::<RecordV>::empty().push(rv) =~= seq![rv]);
}

/// What decoding one byte stream produced: the accepted records, in decode
/// order, and the error that ended decoding, if one did.  Records decoded
/// and accepted before an error are kept.
pub struct DecodeOutcome {
    pub records: Vec<Record>,
    pub error: Option<ParseError>,
}

/// Decode the whole byte stream of one input file, page by page: read each
/// page header (tag, reserved word, little-endian declared length), decode
/// records with the tag's layout while holding the consumed count against
/// the declared length, and let `filter` gate which records are kept.
/// Length accounting happens for every decoded record regardless of the
/// filter's outcome; filtering only gates delivery.
#[verifier::rlimit(100)]
pub fn parse_file<F: RecordFilter>(bytes: &[u8], filter: &F, codec: &mut FlagCodec) -> (out:
    DecodeOutcome)
    requires
        old(codec).wf(),
    ensures
        final(codec).wf(),
        records_view(out.records@) == filter_records(spec_file(bytes@, 0).0, *filter),
        out.error == spec_file(bytes@, 0).1,
{
    let ghost b = bytes@;
    let len = bytes.len();
    let mut records: Vec<Record> = Vec::new();
    let mut pos: usize = 0;
    let ghost mut done: Seq<RecordV> = Seq::empty();
    proof {
        lemma_filter_empty(*filter);
        assert(records_view(records@) =~= Seq::<RecordV>::empty());
    }
    loop
        invariant
            len == b.len(),
            b == bytes@,
            pos <= len,
            codec.wf(),
            records_view(records@) == filter_records(done, *filter),
            spec_file(b, 0).0 == done + spec_file(b, pos as int).0,
            spec_file(b, 0).1 == spec_file(b, pos as int).1,
        decreases len - pos,
    {
        if len - pos < 4 {
            proof {
                assert(done + Seq::<RecordV>::empty() =~= done);
            }
            return DecodeOutcome { records, error: None };
        }
        let v = match Version::from_reader(bytes, pos) {
            None => {
                proof {
                    assert(done + Seq::<RecordV>::empty() =~= done);
                }
                return DecodeOutcome { records, error: Some(ParseError::UnsupportedVersion) };
            },
            Some(v) => v,
        };
        if len - pos < 12 {
            proof {
                assert(done + Seq::<RecordV>::empty() =~= done);
            }
            return DecodeOutcome { records, error: Some(ParseError::Truncated) };
        }
        let p_len_word = read_u32_le(bytes, pos + 8);
        let p_len = p_len_word as usize;
        let parser = v.get_parser();
        let ghost page_pos = pos as int;
        let ghost hn = spec_has_node_id(v);
        let ghost he = spec_has_extra_id(v);
        let ghost page_total = spec_page(b, page_pos + 12, hn, he, p_len as int, 12);
        let mut cur: usize = pos + 12;
        let mut read: usize = 12;
        let ghost mut page_done: Seq<RecordV> = Seq::empty();
        proof {
            assert(page_prepend(
                page_done,
                spec_page(b, cur as int, hn, he, p_len as int, read as int),
            ) =~= page_total);
        }
        loop
            invariant_except_break
                0 <= page_pos,
                page_pos + 12 <= cur <= len,
                cur as int == page_pos + read,
                parser.has_node_id == hn,
                parser.has_extra_id == he,
                spec_version_of_tag(b, page_pos) == Some(v),
                hn == spec_has_node_id(v),
                he == spec_has_extra_id(v),
                p_len as int == spec_u32_le(b, page_pos + 8) as int,
                page_total == spec_page(b, page_pos + 12, hn, he, p_len as int, 12),
                page_prepend(
                    page_done,
                    spec_page(b, cur as int, hn, he, p_len as int, read as int),
                ) == page_total,
                records_view(records@) == filter_records(done + page_done, *filter),
                spec_file(b, 0).0 == done + spec_file(b, page_pos).0,
                spec_file(b, 0).1 == spec_file(b, page_pos).1,
            invariant
                len == b.len(),
                b == bytes@,
                codec.wf(),
            ensures
                page_pos < pos <= len,
                codec.wf(),
                records_view(records@) == filter_records(done, *filter),
                spec_file(b, 0).0 == done + spec_file(b, pos as int).0,
                spec_file(b, 0).1 == spec_file(b, pos as int).1,
            decreases len - cur,
        {
            let ghost cur0 = cur as int;
            let ghost read0 = read as int;
            let ghost page_done0 = page_done;
            let ghost done0 = done;
            let ghost recs0 = records@;
            match parser.parse_record(bytes, cur, codec) {
                Err(e) => {
                    proof {
                        assert(page_done + Seq::<RecordV>::empty() =~= page_done);
                        assert(spec_file(b, page_pos).0 == page_done);
                        assert(done + page_done =~= spec_file(b, 0).0);
                    }
                    return DecodeOutcome { records, error: Some(e) };
                },
                Ok(None) => {
                    proof {
                        assert(page_done + Seq::<RecordV>::empty() =~= page_done);
                        assert(spec_file(b, page_pos).0 == page_done);
                        assert(done + page_done =~= spec_file(b, 0).0);
                    }
                    return DecodeOutcome { records, error: None };
                },
                Ok(Some((n, rec))) => {
                    let ghost recv = rec@;
                    proof {
                        lemma_parse_record_bounds(b, cur as int, hn, he);
                    }
                    let keep = filter.filter(&rec);
                    if keep {
                        records.push(rec);
                    }
                    read += n;
                    cur += n;
                    proof {
                        page_done = page_done0 + seq![recv];
                        lemma_filter_single(*filter, recv);
                        Seq::filter_distributes_over_add(
                            done0 + page_done0,
                            seq![recv],
                            accept_pred(*filter),
                        );
                        assert((done0 + page_done0) + seq![recv] =~= done0 + page_done);
                        if keep {
                            assert(records@ == recs0.push(rec));
                            assert(records_view(records@) =~= records_view(recs0) + seq![recv]);
                        } else {
                            assert(filter_records(done0 + page_done0, *filter)
                                + Seq::<RecordV>::empty() =~= filter_records(
                                done0 + page_done0,
                                *filter,
                            ));
                        }
                        assert(records_view(records@) == filter_records(done + page_done, *filter));
                    }
                    if read >= p_len {
                        if read == p_len {
                            proof {
                                assert(spec_page(b, cur0, hn, he, p_len as int, read0)
                                    == (PageOutcome {
                                    recs: seq![recv],
                                    status: PageStatus::Closed,
                                    next: cur as int,
                                }));
                                assert(page_total.recs =~= page_done);
                                assert(spec_file(b, page_pos).0 == page_done + spec_file(
                                    b,
                                    cur as int,
                                ).0);
                                assert(spec_file(b, page_pos).1 == spec_file(b, cur as int).1);
                                done = done0 + page_done;
                                assert(done0 + (page_done + spec_file(b, cur as int).0) =~= done
                                    + spec_file(b, cur as int).0);
                            }
                            pos = cur;
                            break;
                        } else {
                            proof {
                                assert(spec_page(b, cur0, hn, he, p_len as int, read0)
                                    == (PageOutcome {
                                    recs: seq![recv],
                                    status: PageStatus::Failed(ParseError::PageLengthMismatch),
                                    next: cur as int,
                                }));
                                assert(page_total.recs =~= page_done);
                                assert(spec_file(b, page_pos).0 == page_done);
                                assert(done0 + page_done =~= spec_file(b, 0).0);
                            }
                            return DecodeOutcome {
                                records,
                                error: Some(ParseError::PageLengthMismatch),
                            };
                        }
                    }
                    proof {
                        assert(spec_page(b, cur0, hn, he, p_len as int, read0) == page_prepend(
                            seq![recv],
                            spec_page(b, cur as int, hn, he, p_len as int, read as int),
                        ));
                        assert(page_done0 + (seq![recv] + spec_page(
                            b,
                            cur as int,
                            hn,
                            he,
                            p_len as int,
                            read as int,
                        ).recs) =~= page_done + spec_page(
                            b,
                            cur as int,
                            hn,
                            he,
                            p_len as int,
                            read as int,
                        ).recs);
                        assert(page_prepend(
                            page_done,
                            spec_page(b, cur as int, hn, he, p_len as int, read as int),
                        ) =~= page_total);
                    }
                },
            }
        }
    }
}

} // verus!
