//! Loading object files into the virtual machine: the segmented object
//! format (detected by its magic header) or the legacy format, a
//! big-endian origin word followed by big-endian code words.

use vstd::prelude::*;

use crate::assembler::SegmentModel;
use crate::assembler::seg_views;
use crate::lc3tools_format;
use crate::vm::LC3;
use crate::vm::VmState;

verus! {

/// Memory after writing `words[k..]` at consecutive addresses from
/// `origin + k` on, wrapping around the address space.
pub open spec fn spec_load_words(mem: Seq<u16>, origin: u16, words: Seq<u16>, k: int) -> Seq<u16>
    recommends
        mem.len() == 0x10000,
    decreases words.len() - k,
{
    if k < 0 || k >= words.len() {
        mem
    } else {
        spec_load_words(
            mem.update(origin.wrapping_add(k as u16) as int, words[k]),
            origin,
            words,
            k + 1,
        )
    }
}

/// Memory after loading the segments `segs[i..]` in order.
pub open spec fn spec_load_segments(mem: Seq<u16>, segs: Seq<SegmentModel>, i: int) -> Seq<u16>
    recommends
        mem.len() == 0x10000,
    decreases segs.len() - i,
{
    if i < 0 || i >= segs.len() {
        mem
    } else {
        spec_load_segments(spec_load_words(mem, segs[i].origin, segs[i].code, 0), segs, i + 1)
    }
}

/// The 16-bit value two big-endian bytes denote.
pub open spec fn be16_val(b0: u8, b1: u8) -> u16 {
    ((b0 as u16) << 8) | (b1 as u16)
}

/// The big-endian words of the data from index `i` on, in pairs.
pub open spec fn spec_be_words(data: Seq<u8>, i: int) -> Seq<u16>
    decreases data.len() - i,
{
    if i < 0 || i + 1 >= data.len() {
        Seq::empty()
    } else {
        seq![be16_val(data[i], data[i + 1])] + spec_be_words(data, i + 2)
    }
}

/// Write one segment's words into memory from its origin on.
fn load_words(vm: &mut LC3, origin: u16, words: &Vec<u16>)
    requires
        old(vm)@.wf(),
    ensures
        final(vm)@.wf(),
        final(vm)@ == (VmState {
            memory: spec_load_words(old(vm)@.memory, origin, words@, 0),
            ..old(vm)@
        }),
{
    let ghost target = spec_load_words(vm@.memory, origin, words@, 0);
    let mut k: usize = 0;
    while k < words.len()
        invariant
            k <= words@.len(),
            vm@.wf(),
            spec_load_words(vm@.memory, origin, words@, k as int) == target,
            (VmState { memory: old(vm)@.memory, ..vm@ }) == old(vm)@,
        decreases words@.len() - k,
    {
        let addr = origin.wrapping_add(k as u16);
        vm.memory[addr as usize] = words[k];
        proof {
            assert((VmState { memory: old(vm)@.memory, ..vm@ }) =~= old(vm)@);
        }
        k = k + 1;
    }
}

/// Load an object file into the VM's memory.
///
/// The segmented format (recognised by its magic header) loads every
/// segment at its own origin; the legacy format loads a single segment
/// whose big-endian origin word comes first. Returns the first origin
/// (the start PC). Fails exactly on malformed segmented data, segmented
/// data without segments, and legacy data shorter than four bytes or of
/// odd length; the machine is then left unchanged.
pub fn load_obj_file(vm: &mut LC3, data: &[u8]) -> (r: Result<u16, String>)
    requires
        old(vm)@.wf(),
    ensures
        final(vm)@.wf(),
        lc3tools_format::spec_is_lc3tools(data@) ==> match lc3tools_format::spec_entries(
            data@.skip(7),
        ) {
            Some(es) => {
                let segs = lc3tools_format::spec_entries_to_segments(
                    lc3tools_format::model_pairs(es),
                    0,
                    Seq::empty(),
                    Seq::empty(),
                );
                if data@.len() >= 7 && segs.len() > 0 {
                    r == Ok::<u16, String>(segs[0].origin) && final(vm)@ == (VmState {
                        memory: spec_load_segments(old(vm)@.memory, segs, 0),
                        ..old(vm)@
                    })
                } else {
                    r is Err && final(vm)@ == old(vm)@
                }
            },
            None => r is Err && final(vm)@ == old(vm)@,
        },
        !lc3tools_format::spec_is_lc3tools(data@) ==> if data@.len() < 4 || data@.len() % 2 != 0 {
            r is Err && final(vm)@ == old(vm)@
        } else {
            r == Ok::<u16, String>(be16_val(data@[0], data@[1])) && final(vm)@ == (VmState {
                memory: spec_load_words(
                    old(vm)@.memory,
                    be16_val(data@[0], data@[1]),
                    spec_be_words(data@, 2),
                    0,
                ),
                ..old(vm)@
            })
        },
{
    if lc3tools_format::is_lc3tools_format(data) {
        // Segmented format: explicit origin markers.
        let entries = match lc3tools_format::decode(data) {
            Ok(entries) => entries,
            Err(e) => {
                proof {
                    assert(final(vm)@ =~= old(vm)@);
                }
                return Err(e);
            },
        };
        let segments = lc3tools_format::entries_to_segments(entries.as_slice());
        let ghost es = lc3tools_format::spec_entries(data@.skip(7)).unwrap();
        proof {
            assert(lc3tools_format::entry_pairs(entries@) =~= lc3tools_format::model_pairs(es));
        }

        if segments.len() == 0 {
            proof {
                assert(final(vm)@ =~= old(vm)@);
            }
            return Err("No segments found in .obj file".to_owned());
        }

        let first_origin = segments[0].origin;
        let ghost segviews = seg_views(segments@);
        let ghost target = spec_load_segments(vm@.memory, segviews, 0);

        let mut i: usize = 0;
        while i < segments.len()
            invariant
                i <= segments@.len(),
                segviews == seg_views(segments@),
                vm@.wf(),
                spec_load_segments(vm@.memory, segviews, i as int) == target,
                (VmState { memory: old(vm)@.memory, ..vm@ }) == old(vm)@,
            decreases segments@.len() - i,
        {
            let seg = &segments[i];
            load_words(vm, seg.origin, &seg.code);
            proof {
                assert((VmState { memory: old(vm)@.memory, ..vm@ }) =~= old(vm)@);
            }
            i = i + 1;
        }
        proof {
            assert(final(vm)@ =~= (VmState { memory: target, ..old(vm)@ }));
            assert(segviews[0].origin == first_origin);
        }

        Ok(first_origin)
    } else {
        // Legacy format: big-endian origin, then big-endian code words.
        if data.len() < 4 || data.len() % 2 != 0 {
            proof {
                assert(final(vm)@ =~= old(vm)@);
            }
            return Err("Invalid .obj file: must have even byte count".to_owned());
        }

        let origin = ((data[0] as u16) << 8) | (data[1] as u16);
        let ghost words = spec_be_words(data@, 2);
        let ghost target = spec_load_words(vm@.memory, origin, words, 0);

        let mut off: usize = 2;
        let mut k: usize = 0;
        while off + 1 < data.len()
            invariant
                2 <= off <= data@.len(),
                off == 2 + 2 * k,
                data@.len() % 2 == 0,
                words == spec_be_words(data@, 2),
                vm@.wf(),
                words.len() - k == spec_be_words(data@, off as int).len(),
                spec_be_words(data@, off as int) == words.skip(k as int),
                spec_load_words(vm@.memory, origin, words, k as int) == target,
                (VmState { memory: old(vm)@.memory, ..vm@ }) == old(vm)@,
            decreases data@.len() - off,
        {
            let word = ((data[off] as u16) << 8) | (data[off + 1] as u16);
            proof {
                assert(words.skip(k as int)[0] == words[k as int]);
                assert(spec_be_words(data@, off + 2) =~= words.skip(k as int).skip(1));
                assert(words.skip(k as int).skip(1) =~= words.skip(k + 1));
                assert(word == words[k as int]);
            }
            let addr = origin.wrapping_add(k as u16);
            vm.memory[addr as usize] = word;
            proof {
                assert((VmState { memory: old(vm)@.memory, ..vm@ }) =~= old(vm)@);
            }
            off = off + 2;
            k = k + 1;
        }
        proof {
            assert(spec_be_words(data@, off as int) =~= Seq::<u16>::empty());
            assert(words.skip(k as int) =~= Seq::<u16>::empty());
            assert(k >= words.len());
            assert(final(vm)@ =~= (VmState { memory: target, ..old(vm)@ }));
        }

        Ok(origin)
    }
}

} // verus!
