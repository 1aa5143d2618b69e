//! The segmented object-file format: a magic header and version, then one
//! entry per word, each carrying a 16-bit value (little-endian), an
//! `is_orig` marker flag, and an attached source line. Per segment the
//! encoder writes one origin entry followed by one entry per code word.

use vstd::prelude::*;

use crate::assembler::Segment;
use crate::assembler::SegmentModel;
use crate::assembler::seg_views;

verus! {

broadcast use crate::isa::lemma_field_bounds;

/// The magic header bytes of the object format.
pub open spec fn spec_magic() -> Seq<u8> {
    seq![0x1cu8, 0x30u8, 0x15u8, 0xc0u8, 0x01u8]
}

/// The version bytes the encoder writes.
pub open spec fn spec_version() -> Seq<u8> {
    seq![0x01u8, 0x01u8]
}

/// The 16-bit value two little-endian bytes denote.
pub open spec fn le16_val(b0: u8, b1: u8) -> u16 {
    (b0 as u16) | ((b1 as u16) << 8)
}

/// The 32-bit value four little-endian bytes denote.
pub open spec fn le32_val(b0: u8, b1: u8, b2: u8, b3: u8) -> u32 {
    (b0 as u32) | ((b1 as u32) << 8) | ((b2 as u32) << 16) | ((b3 as u32) << 24)
}

/// The two little-endian bytes of a 16-bit value.
pub open spec fn spec_le16(x: u16) -> Seq<u8> {
    seq![(x & 0xFF) as u8, (x >> 8) as u8]
}

/// Encoding and decoding of little-endian fields invert each other, and the
/// four zero bytes denote the length zero.
pub broadcast proof fn lemma_le16_roundtrip(x: u16)
    ensures
        #[trigger] le16_val((x & 0xFF) as u8, (x >> 8) as u8) == x,
        le32_val(0, 0, 0, 0) == 0,
{
    assert(le16_val((x & 0xFF) as u8, (x >> 8) as u8) == x && le32_val(0, 0, 0, 0) == 0) by {
        assert(((x & 0xFF) as u8) as u16 | (((x >> 8) as u8) as u16) << 8 == x && (0u8 as u32) | (
        0u8 as u32) << 8 | (0u8 as u32) << 16 | (0u8 as u32) << 24 == 0) by (bit_vector);
    }
}

/// Memory entry parsed from the object format.
#[derive(Debug, Clone, PartialEq, Eq)]
pub struct MemEntry {
    pub value: u16,
    pub is_orig: bool,
    pub line: String,
}

/// Ghost model of one decoded entry; the attached source line is kept as
/// its raw bytes.
#[verifier::ext_equal]
pub struct EntryModel {
    pub value: u16,
    pub is_orig: bool,
    pub line: Seq<u8>,
}

/// The bytes of one entry with an empty source line, as the encoder writes
/// them: the value little-endian, the marker flag, and a zero length.
pub open spec fn entry_bytes(value: u16, is_orig: bool) -> Seq<u8> {
    spec_le16(value) + seq![if is_orig { 1u8 } else { 0u8 }, 0u8, 0u8, 0u8, 0u8]
}

/// The bytes of the code-word entries of a segment.
pub open spec fn words_bytes(code: Seq<u16>) -> Seq<u8>
    decreases code.len(),
{
    if code.len() == 0 {
        Seq::empty()
    } else {
        entry_bytes(code[0], false) + words_bytes(code.skip(1))
    }
}

/// The bytes of one segment: an origin entry, then its code words.
pub open spec fn seg_bytes(s: SegmentModel) -> Seq<u8> {
    entry_bytes(s.origin, true) + words_bytes(s.code)
}

/// The bytes of a list of segments.
pub open spec fn segs_bytes(segs: Seq<SegmentModel>) -> Seq<u8>
    decreases segs.len(),
{
    if segs.len() == 0 {
        Seq::empty()
    } else {
        seg_bytes(segs[0]) + segs_bytes(segs.skip(1))
    }
}

/// The whole object file of a list of segments.
pub open spec fn spec_encode(segs: Seq<SegmentModel>) -> Seq<u8> {
    spec_magic() + spec_version() + segs_bytes(segs)
}

/// The entries the body of an object file (everything after the header)
/// denotes: `Option::None` when a declared source line runs past the end of
/// the data. A trailing fragment shorter than one entry header is ignored.
pub open spec fn spec_entries(data: Seq<u8>) -> Option<Seq<EntryModel>>
    decreases data.len(),
{
    if data.len() < 7 {
        Some(Seq::empty())
    } else {
        let n = le32_val(data[3], data[4], data[5], data[6]) as int;
        if 7 + n > data.len() {
            None
        } else {
            match spec_entries(data.skip(7 + n)) {
                Some(rest) => Some(
                    seq![
                        EntryModel {
                            value: le16_val(data[0], data[1]),
                            is_orig: data[2] != 0,
                            line: data.subrange(7, 7 + n),
                        },
                    ] + rest,
                ),
                None => None,
            }
        }
    }
}

/// Whether data begins with the object format's magic header.
pub open spec fn spec_is_lc3tools(data: Seq<u8>) -> bool {
    data.len() >= 5 && data.subrange(0, 5) == spec_magic()
}

/// The `(value, is_orig)` pairs that drive segment reconstruction.
pub open spec fn entry_pairs(entries: Seq<MemEntry>) -> Seq<(u16, bool)> {
    entries.map_values(|e: MemEntry| (e.value, e.is_orig))
}

/// The `(value, is_orig)` pairs of a sequence of entry models.
pub open spec fn model_pairs(entries: Seq<EntryModel>) -> Seq<(u16, bool)> {
    entries.map_values(|e: EntryModel| (e.value, e.is_orig))
}

/// Segment reconstruction from entry pairs: an origin marker finishes the
/// current segment (if it has any code) and starts a new one at its value;
/// a data entry appends its value to the current segment's code; at the
/// end, a non-empty current segment is finished too.
pub open spec fn spec_entries_to_segments(
    pairs: Seq<(u16, bool)>,
    cur_origin: u16,
    cur_code: Seq<u16>,
    acc: Seq<SegmentModel>,
) -> Seq<SegmentModel>
    decreases pairs.len(),
{
    if pairs.len() == 0 {
        if cur_code.len() > 0 {
            acc.push(SegmentModel { origin: cur_origin, code: cur_code })
        } else {
            acc
        }
    } else {
        let (v, is_orig) = pairs[0];
        if is_orig {
            if cur_code.len() > 0 {
                spec_entries_to_segments(
                    pairs.skip(1),
                    v,
                    Seq::empty(),
                    acc.push(SegmentModel { origin: cur_origin, code: cur_code }),
                )
            } else {
                spec_entries_to_segments(pairs.skip(1), v, Seq::empty(), acc)
            }
        } else {
            spec_entries_to_segments(pairs.skip(1), cur_origin, cur_code.push(v), acc)
        }
    }
}

/// Names what `String::from_utf8_lossy` returns on given bytes.
pub uninterp spec fn lossy_decoded(bytes: Seq<u8>) -> Seq<char>;

/// Relies on `String::from_utf8_lossy`: the result is a function of the
/// bytes alone, and empty input gives an empty string.
#[verifier::external_body]
fn lossy_string(bytes: &[u8]) -> (r: String)
    ensures
        r@ == lossy_decoded(bytes@),
        bytes@.len() == 0 ==> r@.len() == 0,
{
    String::from_utf8_lossy(bytes).into_owned()
}

/// Encode segments into the object format: the magic header and version,
/// then per segment one origin entry and one entry per code word, all with
/// empty source lines.
pub fn encode(segments: &[Segment]) -> (r: Vec<u8>)
    ensures
        r@ == spec_encode(seg_views(segments@)),
{
    let ghost all = seg_views(segments@);
    let mut out: Vec<u8> = Vec::new();

    // Header.
    out.push(0x1c);
    out.push(0x30);
    out.push(0x15);
    out.push(0xc0);
    out.push(0x01);
    out.push(0x01);
    out.push(0x01);
    proof {
        assert(out@ =~= spec_magic() + spec_version());
        assert(out@ + segs_bytes(all.skip(0)) =~= spec_encode(all)) by {
            assert(all.skip(0) =~= all);
        }
    }

    let mut i: usize = 0;
    while i < segments.len()
        invariant
            i <= segments.len(),
            all == seg_views(segments@),
            out@ + segs_bytes(all.skip(i as int)) == spec_encode(all),
        decreases segments.len() - i,
    {
        let seg = &segments[i];
        proof {
            assert(all.skip(i as int)[0] == all[i as int]);
            assert(all.skip(i as int).skip(1) =~= all.skip(i + 1));
            assert(segs_bytes(all.skip(i as int)) == seg_bytes(all[i as int]) + segs_bytes(
                all.skip(i + 1),
            ));
        }
        // Origin entry.
        out.push((seg.origin & 0xFF) as u8);
        out.push((seg.origin >> 8) as u8);
        out.push(1);
        out.push(0);
        out.push(0);
        out.push(0);
        out.push(0);
        proof {
            assert(out@ + words_bytes(seg@.code.skip(0)) + segs_bytes(all.skip(i + 1)) =~= spec_encode(
                all,
            )) by {
                assert(seg@.code.skip(0) =~= seg@.code);
                assert(entry_bytes(seg.origin, true) =~= seq![
                    (seg.origin & 0xFF) as u8,
                    (seg.origin >> 8) as u8,
                    1u8,
                    0u8,
                    0u8,
                    0u8,
                    0u8,
                ]);
            }
        }

        // Code entries.
        let mut j: usize = 0;
        while j < seg.code.len()
            invariant
                j <= seg.code.len(),
                all == seg_views(segments@),
                i < segments.len(),
                seg == &segments[i as int],
                out@ + words_bytes(seg@.code.skip(j as int)) + segs_bytes(all.skip(i + 1))
                    == spec_encode(all),
            decreases seg.code.len() - j,
        {
            let word = seg.code[j];
            proof {
                assert(seg@.code.skip(j as int)[0] == seg@.code[j as int]);
                assert(seg@.code.skip(j as int).skip(1) =~= seg@.code.skip(j + 1));
                assert(words_bytes(seg@.code.skip(j as int)) == entry_bytes(word, false)
                    + words_bytes(seg@.code.skip(j + 1)));
            }
            out.push((word & 0xFF) as u8);
            out.push((word >> 8) as u8);
            out.push(0);
            out.push(0);
            out.push(0);
            out.push(0);
            out.push(0);
            proof {
                assert(out@ + words_bytes(seg@.code.skip(j + 1)) + segs_bytes(all.skip(i + 1))
                    =~= spec_encode(all)) by {
                    assert(entry_bytes(word, false) =~= seq![
                        (word & 0xFF) as u8,
                        (word >> 8) as u8,
                        0u8,
                        0u8,
                        0u8,
                        0u8,
                        0u8,
                    ]);
                }
            }
            j = j + 1;
        }
        proof {
            assert(words_bytes(seg@.code.skip(j as int)) =~= Seq::<u8>::empty());
            assert(out@ + segs_bytes(all.skip(i + 1)) =~= spec_encode(all));
        }
        i = i + 1;
    }
    proof {
        assert(segs_bytes(all.skip(i as int)) =~= Seq::<u8>::empty());
        assert(out@ =~= spec_encode(all));
    }
    out
}

/// Parse object-format bytes into memory entries.
///
/// Fails exactly on data shorter than the header, a wrong magic header, or
/// a declared source line running past the end of the data; any version is
/// accepted. On success the entries are exactly those the data denotes.
pub fn decode(data: &[u8]) -> (r: Result<Vec<MemEntry>, String>)
    ensures
        data@.len() < 7 ==> r is Err,
        data@.len() >= 7 && !spec_is_lc3tools(data@) ==> r is Err,
        data@.len() >= 7 && spec_is_lc3tools(data@) ==> match spec_entries(data@.skip(7)) {
            Some(es) => match r {
                Ok(v) => {
                    &&& v@.len() == es.len()
                    &&& forall|k: int|
                        0 <= k < es.len() ==> (#[trigger] v@[k]).value == es[k].value
                            && v@[k].is_orig == es[k].is_orig && v@[k].line@ == lossy_decoded(
                            es[k].line,
                        ) && (es[k].line.len() == 0 ==> v@[k].line@.len() == 0)
                },
                Err(_) => false,
            },
            None => r is Err,
        },
{
    if data.len() < 7 {
        return Err("File too short for lc3tools format".to_owned());
    }

    if !(data[0] == 0x1c && data[1] == 0x30 && data[2] == 0x15 && data[3] == 0xc0 && data[4]
        == 0x01) {
        proof {
            assert(!spec_is_lc3tools(data@)) by {
                if data@.subrange(0, 5) == spec_magic() {
                    assert(data@[0] == 0x1c && data@[1] == 0x30 && data@[2] == 0x15 && data@[3]
                        == 0xc0 && data@[4] == 0x01) by {
                        assert(data@.subrange(0, 5)[0] == data@[0]);
                        assert(data@.subrange(0, 5)[1] == data@[1]);
                        assert(data@.subrange(0, 5)[2] == data@[2]);
                        assert(data@.subrange(0, 5)[3] == data@[3]);
                        assert(data@.subrange(0, 5)[4] == data@[4]);
                    }
                }
            }
        }
        return Err("Invalid lc3tools magic header".to_owned());
    }
    proof {
        assert(spec_is_lc3tools(data@)) by {
            assert(data@.subrange(0, 5) =~= spec_magic());
        }
    }

    // Any version is accepted for compatibility.
    let mut offset: usize = 7;
    let mut entries: Vec<MemEntry> = Vec::new();
    let ghost mut pref: Seq<EntryModel> = Seq::empty();

    while data.len() - offset >= 7
        invariant
            7 <= offset <= data.len(),
            entries@.len() == pref.len(),
            forall|k: int|
                0 <= k < pref.len() ==> (#[trigger] entries@[k]).value == pref[k].value
                    && entries@[k].is_orig == pref[k].is_orig && entries@[k].line@ == lossy_decoded(
                    pref[k].line,
                ) && (pref[k].line.len() == 0 ==> entries@[k].line@.len() == 0),
            spec_entries(data@.skip(7)) == match spec_entries(data@.skip(offset as int)) {
                Some(rest) => Some(pref + rest),
                None => None::<Seq<EntryModel>>,
            },
        decreases data.len() - offset,
    {
        let ghost tail = data@.skip(offset as int);
        proof {
            assert(tail.len() >= 7);
            assert(tail[0] == data@[offset as int]);
            assert(tail[1] == data@[offset + 1]);
            assert(tail[2] == data@[offset + 2]);
            assert(tail[3] == data@[offset + 3]);
            assert(tail[4] == data@[offset + 4]);
            assert(tail[5] == data@[offset + 5]);
            assert(tail[6] == data@[offset + 6]);
        }

        // value: 2 bytes (little-endian)
        let value: u16 = (data[offset] as u16) | ((data[offset + 1] as u16) << 8);

        // is_orig: 1 byte
        let is_orig = data[offset + 2] != 0;

        // num_chars: 4 bytes (little-endian)
        let num_chars: u32 = (data[offset + 3] as u32) | ((data[offset + 4] as u32) << 8) | ((
        data[offset + 5] as u32) << 16) | ((data[offset + 6] as u32) << 24);

        let avail: usize = data.len() - (offset + 7);
        if num_chars as usize > avail {
            proof {
                assert(spec_entries(tail) is None);
            }
            return Err("Truncated source line in lc3tools file".to_owned());
        }
        let n = num_chars as usize;

        // line: num_chars bytes
        let line = lossy_string(&data[offset + 7..offset + 7 + n]);

        let ghost model = EntryModel {
            value,
            is_orig,
            line: tail.subrange(7, 7 + n as int),
        };
        proof {
            assert(tail.subrange(7, 7 + n as int) =~= data@.subrange(
                offset + 7,
                offset + 7 + n as int,
            ));
            assert(tail.skip(7 + n as int) =~= data@.skip(offset + 7 + n as int));
            assert(spec_entries(tail) == match spec_entries(data@.skip(offset + 7 + n as int)) {
                Some(rest) => Some(seq![model] + rest),
                None => None::<Seq<EntryModel>>,
            });
        }

        entries.push(MemEntry { value, is_orig, line });
        proof {
            pref = pref.push(model);
            assert(forall|rest: Seq<EntryModel>|
                pref + rest =~= pref.drop_last() + (seq![model] + rest));
        }
        offset = offset + 7 + n;
    }
    proof {
        assert(spec_entries(data@.skip(offset as int)) == Some(Seq::<EntryModel>::empty()));
        assert(match spec_entries(data@.skip(7)) {
            Some(es) => es =~= pref,
            None => false,
        });
    }

    Ok(entries)
}

/// Load object-format entries into segments.
pub fn entries_to_segments(entries: &[MemEntry]) -> (r: Vec<Segment>)
    ensures
        seg_views(r@) == spec_entries_to_segments(
            entry_pairs(entries@),
            0,
            Seq::empty(),
            Seq::empty(),
        ),
{
    let ghost target = spec_entries_to_segments(entry_pairs(entries@), 0, Seq::empty(), Seq::empty());
    let mut segments: Vec<Segment> = Vec::new();
    let mut current_origin: u16 = 0;
    let mut current_code: Vec<u16> = Vec::new();

    proof {
        assert(seg_views(segments@) =~= Seq::<SegmentModel>::empty());
        assert(entry_pairs(entries@).skip(0) =~= entry_pairs(entries@));
    }

    let mut i: usize = 0;
    while i < entries.len()
        invariant
            i <= entries.len(),
            spec_entries_to_segments(
                entry_pairs(entries@).skip(i as int),
                current_origin,
                current_code@,
                seg_views(segments@),
            ) == target,
        decreases entries.len() - i,
    {
        let ghost pairs = entry_pairs(entries@).skip(i as int);
        proof {
            assert(pairs[0] == entry_pairs(entries@)[i as int]);
            assert(entry_pairs(entries@)[i as int] == (entries@[i as int].value,
            entries@[i as int].is_orig));
            assert(pairs.skip(1) =~= entry_pairs(entries@).skip(i + 1));
        }
        let entry = &entries[i];
        if entry.is_orig {
            // Save the previous segment if it has code.
            if current_code.len() > 0 {
                let code = current_code;
                current_code = Vec::new();
                let ghost old_views = seg_views(segments@);
                segments.push(Segment { origin: current_origin, code });
                proof {
                    assert(seg_views(segments@) =~= old_views.push(
                        SegmentModel { origin: current_origin, code: code@ },
                    ));
                }
            }
            proof {
                assert(current_code@ =~= Seq::<u16>::empty());
            }
            current_origin = entry.value;
        } else {
            current_code.push(entry.value);
        }
        i = i + 1;
    }
    proof {
        assert(entry_pairs(entries@).skip(i as int) =~= Seq::<(u16, bool)>::empty());
    }

    // Save the final segment.
    if current_code.len() > 0 {
        let ghost old_views = seg_views(segments@);
        let ghost code_view = current_code@;
        segments.push(Segment { origin: current_origin, code: current_code });
        proof {
            assert(seg_views(segments@) =~= old_views.push(
                SegmentModel { origin: current_origin, code: code_view },
            ));
        }
    }

    segments
}

/// Check whether data looks like the object format (correct magic header).
pub fn is_lc3tools_format(data: &[u8]) -> (r: bool)
    ensures
        r == spec_is_lc3tools(data@),
{
    if data.len() < 5 {
        proof {
            assert(!spec_is_lc3tools(data@));
        }
        return false;
    }
    let r = data[0] == 0x1c && data[1] == 0x30 && data[2] == 0x15 && data[3] == 0xc0 && data[4]
        == 0x01;
    proof {
        if r {
            assert(data@.subrange(0, 5) =~= spec_magic());
        } else {
            if data@.subrange(0, 5) == spec_magic() {
                assert(data@[0] == 0x1c && data@[1] == 0x30 && data@[2] == 0x15 && data@[3] == 0xc0
                    && data@[4] == 0x01) by {
                    assert(data@.subrange(0, 5)[0] == data@[0]);
                    assert(data@.subrange(0, 5)[1] == data@[1]);
                    assert(data@.subrange(0, 5)[2] == data@[2]);
                    assert(data@.subrange(0, 5)[3] == data@[3]);
                    assert(data@.subrange(0, 5)[4] == data@[4]);
                }
            }
        }
    }
    r
}

/// The entry models of one segment's code words: data entries with empty
/// source lines.
pub open spec fn word_models(code: Seq<u16>) -> Seq<EntryModel> {
    code.map_values(|w: u16| EntryModel { value: w, is_orig: false, line: Seq::empty() })
}

/// The entry models of a list of segments: per segment one origin entry,
/// then its code words, all with empty source lines.
pub open spec fn segs_models(segs: Seq<SegmentModel>) -> Seq<EntryModel>
    decreases segs.len(),
{
    if segs.len() == 0 {
        Seq::empty()
    } else {
        seq![EntryModel { value: segs[0].origin, is_orig: true, line: Seq::empty() }]
            + word_models(segs[0].code) + segs_models(segs.skip(1))
    }
}

proof fn lemma_parse_entry(value: u16, is_orig: bool, rest: Seq<u8>)
    ensures
        spec_entries(entry_bytes(value, is_orig) + rest) == match spec_entries(rest) {
            Some(es) => Some(
                seq![EntryModel { value, is_orig, line: Seq::empty() }] + es,
            ),
            None => None::<Seq<EntryModel>>,
        },
{
    let data = entry_bytes(value, is_orig) + rest;
    lemma_le16_roundtrip(value);
    assert(data[0] == (value & 0xFF) as u8);
    assert(data[1] == (value >> 8) as u8);
    assert(data[2] == if is_orig { 1u8 } else { 0u8 });
    assert(data[3] == 0 && data[4] == 0 && data[5] == 0 && data[6] == 0);
    assert(data.subrange(7, 7) =~= Seq::<u8>::empty());
    assert(data.skip(7) =~= rest);
}

proof fn lemma_parse_words(code: Seq<u16>, rest: Seq<u8>)
    requires
        spec_entries(rest) is Some,
    ensures
        spec_entries(words_bytes(code) + rest) == Some(
            word_models(code) + spec_entries(rest).unwrap(),
        ),
    decreases code.len(),
{
    if code.len() == 0 {
        assert(words_bytes(code) + rest =~= rest);
        assert(word_models(code) + spec_entries(rest).unwrap() =~= spec_entries(rest).unwrap());
    } else {
        lemma_parse_words(code.skip(1), rest);
        lemma_parse_entry(code[0], false, words_bytes(code.skip(1)) + rest);
        assert(words_bytes(code) + rest =~= entry_bytes(code[0], false) + (words_bytes(code.skip(1))
            + rest));
        assert(word_models(code.skip(1)) =~= word_models(code).skip(1));
        assert(seq![EntryModel { value: code[0], is_orig: false, line: Seq::empty() }]
            + (word_models(code).skip(1) + spec_entries(rest).unwrap()) =~= word_models(code)
            + spec_entries(rest).unwrap());
    }
}

proof fn lemma_parse_segs(segs: Seq<SegmentModel>)
    ensures
        spec_entries(segs_bytes(segs)) == Some(segs_models(segs)),
    decreases segs.len(),
{
    if segs.len() == 0 {
        assert(spec_entries(segs_bytes(segs)) == Some(Seq::<EntryModel>::empty()));
        assert(segs_models(segs) =~= Seq::<EntryModel>::empty());
    } else {
        lemma_parse_segs(segs.skip(1));
        lemma_parse_words(segs[0].code, segs_bytes(segs.skip(1)));
        lemma_parse_entry(
            segs[0].origin,
            true,
            words_bytes(segs[0].code) + segs_bytes(segs.skip(1)),
        );
        assert(segs_bytes(segs) =~= entry_bytes(segs[0].origin, true) + (words_bytes(segs[0].code)
            + segs_bytes(segs.skip(1))));
        assert(seq![EntryModel { value: segs[0].origin, is_orig: true, line: Seq::empty() }] + (
        word_models(segs[0].code) + segs_models(segs.skip(1))) =~= segs_models(segs));
    }
}

proof fn lemma_e2s_words(
    code: Seq<u16>,
    after: Seq<(u16, bool)>,
    cur_origin: u16,
    cur_code: Seq<u16>,
    acc: Seq<SegmentModel>,
)
    ensures
        spec_entries_to_segments(
            model_pairs(word_models(code)) + after,
            cur_origin,
            cur_code,
            acc,
        ) == spec_entries_to_segments(after, cur_origin, cur_code + code, acc),
    decreases code.len(),
{
    if code.len() == 0 {
        assert(model_pairs(word_models(code)) + after =~= after);
        assert(cur_code + code =~= cur_code);
    } else {
        let pairs = model_pairs(word_models(code)) + after;
        assert(pairs[0] == (code[0], false));
        assert(pairs.skip(1) =~= model_pairs(word_models(code.skip(1))) + after);
        lemma_e2s_words(code.skip(1), after, cur_origin, cur_code.push(code[0]), acc);
        assert(cur_code.push(code[0]) + code.skip(1) =~= cur_code + code);
    }
}

proof fn lemma_e2s_segs(
    segs: Seq<SegmentModel>,
    cur_origin: u16,
    cur_code: Seq<u16>,
    acc: Seq<SegmentModel>,
)
    requires
        forall|i: int| 0 <= i < segs.len() ==> (#[trigger] segs[i]).code.len() > 0,
    ensures
        spec_entries_to_segments(model_pairs(segs_models(segs)), cur_origin, cur_code, acc) == (
        if cur_code.len() > 0 {
            acc.push(SegmentModel { origin: cur_origin, code: cur_code })
        } else {
            acc
        }) + segs,
    decreases segs.len(),
{
    let flushed = if cur_code.len() > 0 {
        acc.push(SegmentModel { origin: cur_origin, code: cur_code })
    } else {
        acc
    };
    if segs.len() == 0 {
        assert(model_pairs(segs_models(segs)) =~= Seq::<(u16, bool)>::empty());
        assert(flushed + segs =~= flushed);
    } else {
        let pairs = model_pairs(segs_models(segs));
        assert(pairs[0] == (segs[0].origin, true));
        assert(pairs.skip(1) =~= model_pairs(word_models(segs[0].code)) + model_pairs(
            segs_models(segs.skip(1)),
        ));
        lemma_e2s_words(
            segs[0].code,
            model_pairs(segs_models(segs.skip(1))),
            segs[0].origin,
            Seq::empty(),
            flushed,
        );
        assert(Seq::<u16>::empty() + segs[0].code =~= segs[0].code);
        assert(forall|i: int|
            0 <= i < segs.skip(1).len() ==> (#[trigger] segs.skip(1)[i]).code.len() > 0);
        lemma_e2s_segs(segs.skip(1), segs[0].origin, segs[0].code, flushed);
        assert(SegmentModel { origin: segs[0].origin, code: segs[0].code } =~= segs[0]);
        assert(flushed.push(segs[0]) + segs.skip(1) =~= flushed + segs);
    }
}

/// Round trip of the object format: encoding segments and decoding the
/// bytes again yields exactly one origin entry per segment followed by its
/// code words, and reconstructing segments from those entries yields the
/// original segment list, provided every segment has at least one code
/// word (a code-less segment leaves no trace but its origin marker, which
/// the reconstruction then drops).
pub proof fn lemma_objfile_roundtrip(segs: Seq<SegmentModel>)
    requires
        forall|i: int| 0 <= i < segs.len() ==> (#[trigger] segs[i]).code.len() > 0,
    ensures
        spec_entries(spec_encode(segs).skip(7)) == Some(segs_models(segs)),
        spec_entries_to_segments(
            model_pairs(segs_models(segs)),
            0,
            Seq::empty(),
            Seq::empty(),
        ) == segs,
{
    assert(spec_encode(segs).skip(7) =~= segs_bytes(segs));
    lemma_parse_segs(segs);
    lemma_e2s_segs(segs, 0, Seq::empty(), Seq::empty());
    assert(Seq::<SegmentModel>::empty() + segs =~= segs);
}

/// Magic detection: every encoded object file is recognised as one.
pub proof fn lemma_encode_is_lc3tools(segs: Seq<SegmentModel>)
    ensures
        spec_is_lc3tools(spec_encode(segs)),
{
    assert(spec_encode(segs).subrange(0, 5) =~= spec_magic());
}

} // verus!

