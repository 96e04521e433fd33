//! The TIFF/BigTIFF storage backend: reads every image of a file through
//! its IFD chain, and writes one or several images as a header, an IFD
//! chain and the images' pixel data.
use crate::error::{Error, ErrorCode, Result};
use crate::io::backend_capabilities::BackendCapabilities;
use crate::io::binary_reader::BinaryReader;
use crate::io::binary_writer::{overwrite_at, BinaryWriter};
use crate::io::storage_backend::StorageBackend;
use crate::io::storage_model::StorageModel;
use vstd::prelude::*;

use super::checked_arithmetic::checked_add_u64;
use super::directory::{
    directory_base_fields, interpret_tiff_ifd, interprets_as, ifd_supported, to_storage_model, with_entries, TiffDirectory,
};
use super::image_source::TiffImageSource;
use super::endian::Endian;
use super::directory_writer::{
    cell_count, first_data_byte, ifd_sizes_upto, image_ifd_size, image_inputs, lemma_multi_image, lemma_plan_ifd_size,
    multi_matches, multi_ok, plan_matches, plan_ok, plan_tiff_write, plan_tiff_write_multi, planned_data_offset,
    spans_upto, TiffFileWritePlan, TiffWritePlan,
};
use super::image_sink::TiffImageSink;
use super::header::{
    header_bytes, header_size, parse_header, read_tiff_header, rest, write_tiff_header, TiffHeader,
    K_BIG_TIFF_HEADER_SIZE, K_CLASSIC_TIFF_HEADER_SIZE,
};
use super::ifd_writer::{
    ifd_layout, ifd_size, lemma_ifd_size_order_free, sorted_by_tag, tiff_ifd_byte_size, write_tiff_ifd,
    TiffIfdEntryToWrite,
};
use super::ifd::{count_field_size, parse_ifd, read_tiff_ifd};

verus! {

/// The most IFDs followed in one chain.
pub const K_MAX_DIRECTORIES: usize = 100000;

/// The tag maps of the IFD chain starting at `off`, following at most
/// `budget` IFDs: each IFD must parse and be supported, and each next
/// offset must lie beyond the current one; `None` when the chain breaks
/// one of these rules.
pub open spec fn ifd_chain(b: Seq<u8>, off: nat, e: Endian, big: bool, budget: nat) -> Option<
    Seq<Map<u16, Seq<u64>>>,
>
    decreases budget,
{
    if budget == 0 {
        Some(Seq::empty())
    } else {
        match parse_ifd(b, off, e, big) {
            None => None,
            Some((m, next)) => {
                if !ifd_supported(m) {
                    None
                } else if next == 0 {
                    Some(seq![m])
                } else if next <= off {
                    None
                } else {
                    match ifd_chain(b, next as nat, e, big, (budget - 1) as nat) {
                        None => None,
                        Some(tail) => Some(seq![m] + tail),
                    }
                }
            }
        }
    }
}

/// The header and the IFD tag maps of the file `b` read from `pos`:
/// `None` unless the header parses and its IFD chain is well formed and
/// holds at least one IFD.
pub open spec fn file_chain(b: Seq<u8>, pos: nat) -> Option<(TiffHeader, Seq<Map<u16, Seq<u64>>>)> {
    match parse_header(rest(b, pos)) {
        None => None,
        Some(h) => match ifd_chain(
            b,
            h.first_ifd_offset as nat,
            h.endian,
            h.is_big_tiff,
            K_MAX_DIRECTORIES as nat,
        ) {
            None => None,
            Some(ms) => if ms.len() == 0 {
                None
            } else {
                Some((h, ms))
            },
        },
    }
}

/// `d` is the IFD with tag map `m` resolved in a file of byte order `e`.
pub open spec fn read_as(m: Map<u16, Seq<u64>>, e: Endian, d: TiffDirectory) -> bool {
    &&& d.endian == e
    &&& interprets_as(m, TiffDirectory { endian: Endian::Little, ..d })
}

/// Every image of a file, in chain order.
struct TiffDirectoryChain {
    directories: Vec<TiffDirectory>,
    is_big_tiff: bool,
}

/// The chain from `off` with one more IFD of budget is the IFD there
/// followed by the chain from its successor.
proof fn lemma_chain_step(b: Seq<u8>, off: nat, e: Endian, big: bool, budget: nat)
    requires
        budget > 0,
    ensures
        ifd_chain(b, off, e, big, budget) == match parse_ifd(b, off, e, big) {
            None => None,
            Some((m, next)) => {
                if !ifd_supported(m) {
                    None
                } else if next == 0 {
                    Some(seq![m])
                } else if next <= off {
                    None
                } else {
                    match ifd_chain(b, next as nat, e, big, (budget - 1) as nat) {
                        None => None,
                        Some(tail) => Some(seq![m] + tail),
                    }
                }
            }
        },
{
}

/// Reads and resolves the IFD at `ifd_offset` of a file of `file_size`
/// bytes with header `header`, returning its directory and the offset of
/// the next IFD.
fn read_one_directory<R: BinaryReader>(reader: &mut R, ifd_offset: u64, file_size: u64, header: TiffHeader) -> (r: Result<(TiffDirectory, u64)>)
    requires
        old(reader).bytes().len() == file_size,
    ensures
        final(reader).bytes() == old(reader).bytes(),
        final(reader).reliable() == old(reader).reliable(),
        old(reader).reliable() ==> (r is Ok <==> (parse_ifd(old(reader).bytes(), ifd_offset as nat, header.endian, header.is_big_tiff) matches Some((m, n)) && ifd_supported(m))),
        r matches Ok((d, next)) ==> parse_ifd(old(reader).bytes(), ifd_offset as nat, header.endian, header.is_big_tiff) matches Some((m, n)) && ifd_supported(m) && n == next && read_as(m, header.endian, d),
{
    let ghost b = reader.bytes();
    let count_field: u64 = if header.is_big_tiff { 8 } else { 2 };
    assert(count_field == count_field_size(header.is_big_tiff));
    let min_ifd_end = match checked_add_u64(ifd_offset, count_field) {
        Ok(v) => v,
        Err(e) => {
            return Err(e);
        },
    };
    if min_ifd_end > file_size {
        return Err(Error::invalid_argument("readDirectoryChain: IFD offset outside the file bounds"));
    }
    let ifd = read_tiff_ifd(reader, ifd_offset, header.endian, header.is_big_tiff)?;
    let mut directory = interpret_tiff_ifd(&ifd)?;
    proof {
        assert(TiffDirectory { endian: Endian::Little, ..directory } == directory);
    }
    directory.endian = header.endian;
    Ok((directory, ifd.next_ifd_offset()))
}

/// Reads the header at `reader`'s cursor, then every IFD of the chain it
/// starts, resolving each into a directory in the file's byte order. The
/// result is exactly [`file_chain`]; a broken chain fails.
#[verifier::rlimit(40)]
#[verifier::spinoff_prover]
fn read_directory_chain<R: BinaryReader>(reader: &mut R) -> (r: Result<TiffDirectoryChain>)
    ensures
        final(reader).bytes() == old(reader).bytes(),
        final(reader).reliable() == old(reader).reliable(),
        old(reader).reliable() ==> (r is Ok <==> file_chain(old(reader).bytes(), old(reader).pos()) is Some),
        r matches Ok(c) ==> {
            &&& file_chain(old(reader).bytes(), old(reader).pos()) matches Some((h, ms))
            &&& c.is_big_tiff == h.is_big_tiff
            &&& c.directories@.len() == ms.len()
            &&& forall|i: int| 0 <= i < ms.len() ==> read_as(ms[i], h.endian, #[trigger] c.directories@[i])
        },
{
    let ghost b = reader.bytes();
    let ghost p0 = reader.pos();
    let header = read_tiff_header(reader)?;
    let file_size = reader.size()?;
    let ghost whole = ifd_chain(b, header.first_ifd_offset as nat, header.endian, header.is_big_tiff, K_MAX_DIRECTORIES as nat);
    let ghost mut seen: Seq<Map<u16, Seq<u64>>> = Seq::empty();
    let mut directories: Vec<TiffDirectory> = Vec::new();
    let mut ifd_offset = header.first_ifd_offset;
    let mut k: usize = 0;
    let mut done = false;
    while k < K_MAX_DIRECTORIES && !done
        invariant
            reader.bytes() == b,
            b == old(reader).bytes(),
            p0 == old(reader).pos(),
            parse_header(rest(b, p0)) == Some(header),
            whole == ifd_chain(b, header.first_ifd_offset as nat, header.endian, header.is_big_tiff, K_MAX_DIRECTORIES as nat),
            reader.reliable() == old(reader).reliable(),
            file_size == b.len(),
            k <= K_MAX_DIRECTORIES,
            directories@.len() == seen.len(),
            forall|i: int| 0 <= i < seen.len() ==> read_as(seen[i], header.endian, #[trigger] directories@[i]),
            done ==> whole == Some(seen),
            done ==> seen.len() > 0,
            !done ==> (whole is Some <==> ifd_chain(b, ifd_offset as nat, header.endian, header.is_big_tiff, (K_MAX_DIRECTORIES - k) as nat) is Some),
            !done && whole is Some ==> whole.unwrap() == seen + ifd_chain(b, ifd_offset as nat, header.endian, header.is_big_tiff, (K_MAX_DIRECTORIES - k) as nat).unwrap(),
        decreases K_MAX_DIRECTORIES - k + (if done { 0int } else { 1int }),
    {
        let ghost budget = (K_MAX_DIRECTORIES - k) as nat;
        proof {
            lemma_chain_step(b, ifd_offset as nat, header.endian, header.is_big_tiff, budget);
        }
        let (directory, next) = read_one_directory(reader, ifd_offset, file_size, header)?;
        let ghost m = parse_ifd(b, ifd_offset as nat, header.endian, header.is_big_tiff).unwrap().0;
        directories.push(directory);
        proof {
            seen = seen.push(m);
        }
        if next == 0 {
            done = true;
            proof {
                assert(seen =~= (seen.drop_last() + seq![m]));
            }
        } else {
            if next <= ifd_offset {
                return Err(Error::invalid_argument("readDirectoryChain: IFD chain does not advance (cyclic or corrupt)"));
            }
            proof {
                let tail = ifd_chain(b, next as nat, header.endian, header.is_big_tiff, (budget - 1) as nat);
                if tail is Some {
                    assert(seen.drop_last() + (seq![m] + tail.unwrap()) =~= seen + tail.unwrap());
                }
            }
            ifd_offset = next;
            k = k + 1;
        }
    }
    if !done {
        proof {
            assert(seen + Seq::<Map<u16, Seq<u64>>>::empty() =~= seen);
        }
    }
    if directories.len() == 0 {
        return Err(Error::invalid_argument("readDirectoryChain: no IFD in file"));
    }
    Ok(TiffDirectoryChain { directories, is_big_tiff: header.is_big_tiff })
}

/// The fields a directory is stored as in a model: its base fields, then
/// its extension fields in order.
pub open spec fn directory_fields(d: TiffDirectory) -> Map<Seq<char>, Seq<char>> {
    with_entries(directory_base_fields(d), d.ptiff_fields.entries(), d.ptiff_fields.entries().len())
}

/// `root` models the images `ds`: no fields of its own, and one child per
/// directory holding that directory's fields.
pub open spec fn models_directories(root: StorageModel, ds: Seq<TiffDirectory>) -> bool {
    &&& root.field_map() == Map::<Seq<char>, Seq<char>>::empty()
    &&& root.child_nodes().len() == ds.len()
    &&& forall|i: int| 0 <= i < ds.len() ==> #[trigger] root.child_nodes()[i].field_map() == directory_fields(ds[i])
}

/// The model of the file `b` read from `pos` is `root`: it models the
/// directories the images of the chain resolve to.
pub open spec fn file_model(b: Seq<u8>, pos: nat, root: StorageModel) -> bool {
    &&& file_chain(b, pos) matches Some((h, ms))
    &&& exists|ds: Seq<TiffDirectory>|
        #![trigger models_directories(root, ds)]
        models_directories(root, ds) && ds.len() == ms.len() && forall|i: int|
            0 <= i < ms.len() ==> read_as(ms[i], h.endian, #[trigger] ds[i])
}

/// The bytes of a single-image file written at `at` from `plan`: the
/// header pointing right behind itself, then the IFD, which is the last of
/// its chain.
pub open spec fn single_file_bytes(plan: TiffWritePlan, at: nat) -> Seq<u8> {
    let big = plan.is_big_tiff;
    header_bytes(header_size(big) as u64, big) + ifd_layout(sorted_by_tag(plan.entries@), big, at + header_size(big), 0)
}

/// Writes the header and the IFD of a single-image plan at the writer's
/// cursor. On a reliable writer with room for both, the bytes written are
/// exactly [`single_file_bytes`].
fn serialize_single_plan<W: BinaryWriter>(plan: TiffWritePlan, writer: &mut W) -> (r: Result<()>)
    requires
        header_size(plan.is_big_tiff) + ifd_size(plan.entries@, plan.is_big_tiff) <= u64::MAX,
    ensures
        final(writer).reliable() == old(writer).reliable(),
        old(writer).reliable() && old(writer).pos() + header_size(plan.is_big_tiff) + ifd_size(plan.entries@, plan.is_big_tiff) <= usize::MAX ==> {
            &&& r is Ok
            &&& final(writer).bytes() == overwrite_at(old(writer).bytes(), old(writer).pos(), single_file_bytes(plan, old(writer).pos()))
        },
{
    let ghost b0 = writer.bytes();
    let ghost p0 = writer.pos();
    let big = plan.is_big_tiff;
    let first_ifd: u64 = if big { K_BIG_TIFF_HEADER_SIZE } else { K_CLASSIC_TIFF_HEADER_SIZE };
    write_tiff_header(writer, first_ifd, big)?;
    let size = tiff_ifd_byte_size(plan.entries.as_slice(), big);
    let at = writer.position()?;
    if at > u64::MAX - size {
        return Err(Error::invalid_argument("serializeModel: the IFD would end past the largest file offset"));
    }
    let ghost hb = header_bytes(first_ifd, big);
    let ghost il = ifd_layout(sorted_by_tag(plan.entries@), big, p0 + header_size(big), 0);
    write_tiff_ifd(writer, plan.entries, big, 0)?;
    proof {
        if old(writer).reliable() && p0 + header_size(big) + size <= usize::MAX {
            super::header::lemma_header_bytes_len(first_ifd, big);
            crate::io::binary_writer::lemma_overwrite_at_concat(b0, p0, hb, il);
        }
    }
    Ok(())
}

/// Where IFD `k` of a chain of IFDs with entries `es` starts, relative to
/// the first.
pub open spec fn ifd_starts(es: Seq<Seq<TiffIfdEntryToWrite>>, big: bool, k: nat) -> nat
    decreases k,
{
    if k == 0 {
        0
    } else {
        ifd_starts(es, big, (k - 1) as nat) + ifd_size(es[k - 1], big)
    }
}

/// The first `k` IFDs of a chain with entries `es`, back to back, the
/// first written at `at` and placed at file offset `cursor`: each links to
/// the next, and the last of the whole chain links to 0.
pub open spec fn chain_bytes(es: Seq<Seq<TiffIfdEntryToWrite>>, big: bool, k: nat, at: nat, cursor: nat) -> Seq<u8>
    decreases k,
{
    if k == 0 {
        Seq::empty()
    } else {
        let j = (k - 1) as nat;
        let off = ifd_starts(es, big, j);
        let next: u64 = if k < es.len() {
            (cursor + off + ifd_size(es[j as int], big)) as u64
        } else {
            0
        };
        chain_bytes(es, big, j, at, cursor) + ifd_layout(sorted_by_tag(es[j as int]), big, at + off, next)
    }
}

/// The IFD entries of every image of a file plan.
pub open spec fn plan_entries(fp: TiffFileWritePlan) -> Seq<Seq<TiffIfdEntryToWrite>> {
    fp.images@.map_values(|p: TiffWritePlan| p.entries@)
}

/// The bytes of a multi-image file written at `at` from `fp`: the header
/// pointing right behind itself, then the IFD chain.
pub open spec fn multi_file_bytes(fp: TiffFileWritePlan, at: nat) -> Seq<u8> {
    let big = fp.is_big_tiff;
    let es = plan_entries(fp);
    header_bytes(header_size(big) as u64, big) + chain_bytes(es, big, es.len(), at + header_size(big), header_size(big))
}

/// The chain's IFDs start where the planned IFD sizes put them.
proof fn lemma_starts_planned(ms: Seq<StorageModel>, fp: TiffFileWritePlan, k: nat)
    requires
        multi_ok(ms),
        multi_matches(ms, fp),
        k <= ms.len(),
    ensures
        ifd_starts(plan_entries(fp), fp.is_big_tiff, k) == ifd_sizes_upto(ms, k),
    decreases k,
{
    if k > 0 {
        lemma_starts_planned(ms, fp, (k - 1) as nat);
        lemma_multi_image(ms, fp, k - 1);
    }
}

/// The first `k` IFDs of a chain take [`ifd_starts`] bytes.
proof fn lemma_chain_bytes_len(es: Seq<Seq<TiffIfdEntryToWrite>>, big: bool, k: nat, at: nat, cursor: nat)
    requires
        k <= es.len(),
        forall|j: int| 0 <= j < k ==> (#[trigger] es[j]).len() <= usize::MAX,
    ensures
        chain_bytes(es, big, k, at, cursor).len() == ifd_starts(es, big, k),
    decreases k,
{
    if k > 0 {
        let j = (k - 1) as nat;
        let off = ifd_starts(es, big, j);
        let next: u64 = if k < es.len() {
            (cursor + off + ifd_size(es[j as int], big)) as u64
        } else {
            0
        };
        lemma_chain_bytes_len(es, big, j, at, cursor);
        lemma_ifd_size_order_free(es[j as int], big, at + off, next);
    }
}

/// IFD starts grow along the chain.
proof fn lemma_starts_monotone(es: Seq<Seq<TiffIfdEntryToWrite>>, big: bool, j: nat, k: nat)
    requires
        j <= k,
    ensures
        ifd_starts(es, big, j) <= ifd_starts(es, big, k),
    decreases k,
{
    if j < k {
        lemma_starts_monotone(es, big, j, (k - 1) as nat);
    }
}

/// A file plan's IFD chain ends where the planned pixel data starts.
proof fn lemma_chain_end(ms: Seq<StorageModel>, fp: TiffFileWritePlan)
    requires
        multi_ok(ms),
        multi_matches(ms, fp),
    ensures
        plan_entries(fp).len() == ms.len(),
        header_size(fp.is_big_tiff) + ifd_starts(plan_entries(fp), fp.is_big_tiff, ms.len()) == first_data_byte(ms),
        first_data_byte(ms) <= u64::MAX,
{
    lemma_starts_planned(ms, fp, ms.len());
    super::directory_writer::lemma_spans_monotone(ms, 0, ms.len());
}

/// Writes the IFDs of `images` back to back at the writer's cursor, the
/// chain placed at file offset `header_len`: each IFD links to the next
/// and the last to 0. On a reliable writer with room for the chain, the
/// bytes written are exactly [`chain_bytes`].
#[verifier::rlimit(40)]
#[verifier::spinoff_prover]
fn write_ifd_chain<W: BinaryWriter>(images: Vec<TiffWritePlan>, big: bool, header_len: u64, writer: &mut W) -> (r: Result<()>)
    requires
        header_len + ifd_starts(images@.map_values(|p: TiffWritePlan| p.entries@), big, images@.len()) <= u64::MAX,
    ensures
        final(writer).reliable() == old(writer).reliable(),
        ({
            let es = images@.map_values(|p: TiffWritePlan| p.entries@);
            old(writer).reliable() && old(writer).pos() <= old(writer).bytes().len() && old(writer).pos() + ifd_starts(es, big, es.len()) <= usize::MAX ==> {
                &&& r is Ok
                &&& final(writer).bytes() == overwrite_at(
                    old(writer).bytes(),
                    old(writer).pos(),
                    chain_bytes(es, big, es.len(), old(writer).pos(), header_len as nat),
                )
            }
        }),
{
    let ghost q = images@;
    let ghost es = images@.map_values(|p: TiffWritePlan| p.entries@);
    let ghost b0 = writer.bytes();
    let ghost p0 = writer.pos();
    let n = images.len();
    let ghost good = old(writer).reliable() && p0 <= b0.len() && p0 + ifd_starts(es, big, n as nat) <= usize::MAX;
    assert(chain_bytes(es, big, 0, p0, header_len as nat) =~= Seq::<u8>::empty());
    assert(good ==> overwrite_at(b0, p0, Seq::<u8>::empty()) =~= b0);
    let mut rest = images;
    let mut cursor: u64 = header_len;
    let mut i: usize = 0;
    while i < n
        invariant
            n == q.len(),
            es == q.map_values(|p: TiffWritePlan| p.entries@),
            i <= n,
            q == images@,
            rest@ == q.subrange(i as int, n as int),
            forall|j: int| 0 <= j < i ==> (#[trigger] es[j]).len() <= usize::MAX,
            cursor == header_len + ifd_starts(es, big, i as nat),
            header_len + ifd_starts(es, big, n as nat) <= u64::MAX,
            writer.reliable() == old(writer).reliable(),
            b0 == old(writer).bytes(),
            p0 == old(writer).pos(),
            good == (old(writer).reliable() && p0 <= b0.len() && p0 + ifd_starts(es, big, n as nat) <= usize::MAX),
            good ==> writer.bytes() == overwrite_at(b0, p0, chain_bytes(es, big, i as nat, p0, header_len as nat)),
            good ==> writer.pos() == p0 + ifd_starts(es, big, i as nat),
        decreases n - i,
    {
        let image = rest.remove(0);
        proof {
            assert(image == q[i as int]);
            assert(es[i as int] == image.entries@);
            assert(image.entries.len() == image.entries@.len());
            lemma_starts_monotone(es, big, (i + 1) as nat, n as nat);
            assert(ifd_starts(es, big, (i + 1) as nat) == ifd_starts(es, big, i as nat) + ifd_size(es[i as int], big));
        }
        let size = tiff_ifd_byte_size(image.entries.as_slice(), big);
        let next: u64 = if i + 1 < n { cursor + size } else { 0 };
        let at = writer.position()?;
        if at > u64::MAX - size {
            return Err(Error::invalid_argument("serializeModelList: an IFD would end past the largest file offset"));
        }
        let ghost lay = ifd_layout(sorted_by_tag(image.entries@), big, at as nat, next);
        write_tiff_ifd(writer, image.entries, big, next)?;
        proof {
            if good {
                let prefix = chain_bytes(es, big, i as nat, p0, header_len as nat);
                lemma_chain_bytes_len(es, big, i as nat, p0, header_len as nat);
                crate::io::binary_writer::lemma_overwrite_at_concat(b0, p0, prefix, lay);
                assert(prefix + lay =~= chain_bytes(es, big, (i + 1) as nat, p0, header_len as nat));
            }
        }
        cursor = cursor + size;
        i = i + 1;
    }
    Ok(())
}

/// The TIFF/BigTIFF storage backend. It supports tiled layouts, random
/// access and cloud streaming, but not small forward-only streams: it
/// opens the whole directory chain.
pub struct TiffBackend;

impl TiffBackend {
    /// A sink over `writer` for the single image `model` describes, its
    /// cursor moved to where the image's pixel data starts (the file's
    /// header and IFD are written by [`StorageBackend::serialize_model`]).
    /// A model that cannot be planned, or with no tile, fails with
    /// [`ErrorCode::InvalidArgument`].
    pub fn open_image_sink<W: BinaryWriter>(&self, writer: W, model: &StorageModel) -> (r: Result<TiffImageSink<W>>)
        ensures
            !plan_ok(model.field_map(), model.entries()) ==> (r matches Err(e) && e.kind() == ErrorCode::InvalidArgument),
            plan_ok(model.field_map(), model.entries()) && cell_count(image_inputs(*model)) == 0 ==> (r matches Err(e) && e.kind() == ErrorCode::InvalidArgument),
            writer.reliable() && plan_ok(model.field_map(), model.entries()) && cell_count(image_inputs(*model)) > 0 ==> (r is Ok
                <==> planned_data_offset(image_inputs(*model), model.entries()) <= writer.bytes().len()),
            r matches Ok(s) ==> {
                &&& s.wf()
                &&& s.next_index() == 0
                &&& s.next_offset() == planned_data_offset(image_inputs(*model), model.entries())
                &&& s.sink_writer().bytes() == writer.bytes()
                &&& s.sink_writer().pos() == planned_data_offset(image_inputs(*model), model.entries())
                &&& s.sink_writer().reliable() == writer.reliable()
                &&& exists|plan: TiffWritePlan|
                    #![trigger plan_matches(model.field_map(), model.entries(), plan)]
                    plan_matches(model.field_map(), model.entries(), plan) && s.sink_directory() == plan.directory
            },
    {
        let plan = plan_tiff_write(model)?;
        let ghost q = plan;
        if plan.directory.tile_byte_ranges.len() == 0 {
            return Err(Error::invalid_argument("TiffBackend::openImageSink: image has no byte ranges"));
        }
        let data_offset = plan.directory.tile_byte_ranges[0].offset;
        let mut writer = writer;
        writer.seek(data_offset)?;
        let sink = TiffImageSink::new(writer, plan.directory);
        assert(plan_matches(model.field_map(), model.entries(), q));
        Ok(sink)
    }

    /// A sink over `writer` for image `image_index` of the multi-image file
    /// `models` describe, its cursor moved to where that image's pixel data
    /// starts. Models that cannot be written together fail with
    /// [`ErrorCode::InvalidArgument`], an index past the last image with
    /// [`ErrorCode::OutOfRange`], and an image with no tile with
    /// [`ErrorCode::InvalidArgument`].
    pub fn open_image_sink_at<W: BinaryWriter>(&self, writer: W, models: &[StorageModel], image_index: usize) -> (r: Result<TiffImageSink<W>>)
        ensures
            !multi_ok(models@) ==> (r matches Err(e) && e.kind() == ErrorCode::InvalidArgument),
            multi_ok(models@) && image_index >= models@.len() ==> (r matches Err(e) && e.kind() == ErrorCode::OutOfRange),
            multi_ok(models@) && image_index < models@.len() && cell_count(image_inputs(models@[image_index as int])) == 0 ==> (r matches Err(e) && e.kind() == ErrorCode::InvalidArgument),
            writer.reliable() && multi_ok(models@) && image_index < models@.len() && cell_count(image_inputs(models@[image_index as int])) > 0 ==> (r is Ok
                <==> first_data_byte(models@) + spans_upto(models@, image_index as nat) <= writer.bytes().len()),
            r matches Ok(s) ==> {
                &&& image_index < models@.len()
                &&& s.wf()
                &&& s.next_index() == 0
                &&& s.next_offset() == first_data_byte(models@) + spans_upto(models@, image_index as nat)
                &&& s.sink_writer().bytes() == writer.bytes()
                &&& s.sink_writer().pos() == first_data_byte(models@) + spans_upto(models@, image_index as nat)
                &&& s.sink_writer().reliable() == writer.reliable()
                &&& exists|fp: TiffFileWritePlan|
                    #![trigger multi_matches(models@, fp)]
                    multi_matches(models@, fp) && s.sink_directory() == fp.images@[image_index as int].directory
            },
    {
        let fp = plan_tiff_write_multi(models)?;
        let ghost q = fp;
        if image_index >= fp.images.len() {
            return Err(Error::out_of_range("TiffBackend::openImageSinkAt: image index out of range"));
        }
        proof {
            lemma_multi_image(models@, fp, image_index as int);
        }
        let mut images = fp.images;
        let image = images.remove(image_index);
        if image.directory.tile_byte_ranges.len() == 0 {
            return Err(Error::invalid_argument("TiffBackend::openImageSinkAt: image has no byte ranges"));
        }
        let data_offset = image.directory.tile_byte_ranges[0].offset;
        let mut writer = writer;
        writer.seek(data_offset)?;
        let sink = TiffImageSink::new(writer, image.directory);
        assert(multi_matches(models@, q));
        Ok(sink)
    }

    /// A source over `reader` for image `image_index` of the file at its
    /// cursor. A broken file fails as [`file_chain`] describes; an index
    /// past the last image fails with [`ErrorCode::NotFound`].
    pub fn open_image_source_at<R: BinaryReader>(&self, reader: R, image_index: usize) -> (r: Result<TiffImageSource<R>>)
        ensures
            reader.reliable() ==> (r is Ok <==> (file_chain(reader.bytes(), reader.pos()) matches Some((h, ms)) && image_index < ms.len())),
            reader.reliable() && (file_chain(reader.bytes(), reader.pos()) matches Some((h, ms)) && image_index >= ms.len()) ==> (r matches Err(e) && e.kind() == ErrorCode::NotFound),
            r matches Ok(s) ==> {
                &&& file_chain(reader.bytes(), reader.pos()) matches Some((h, ms))
                &&& image_index < ms.len()
                &&& read_as(ms[image_index as int], h.endian, s.source_directory())
                &&& s.source_reader().bytes() == reader.bytes()
                &&& s.source_reader().reliable() == reader.reliable()
            },
    {
        let mut reader = reader;
        let chain = read_directory_chain(&mut reader)?;
        let mut directories = chain.directories;
        if image_index >= directories.len() {
            return Err(Error::not_found("TiffBackend::openImageSourceAt: image index out of range"));
        }
        let directory = directories.remove(image_index);
        Ok(TiffImageSource::new(reader, directory))
    }

    /// A source over `reader` for the first image of the file at its
    /// cursor; a broken file fails as [`file_chain`] describes.
    pub fn open_image_source<R: BinaryReader>(&self, reader: R) -> (r: Result<TiffImageSource<R>>)
        ensures
            reader.reliable() ==> (r is Ok <==> file_chain(reader.bytes(), reader.pos()) is Some),
            r matches Ok(s) ==> {
                &&& file_chain(reader.bytes(), reader.pos()) matches Some((h, ms))
                &&& read_as(ms[0], h.endian, s.source_directory())
                &&& s.source_reader().bytes() == reader.bytes()
                &&& s.source_reader().reliable() == reader.reliable()
            },
    {
        let mut reader = reader;
        let chain = read_directory_chain(&mut reader)?;
        let mut directories = chain.directories;
        let directory = directories.remove(0);
        Ok(TiffImageSource::new(reader, directory))
    }
}

impl StorageBackend for TiffBackend {
    /// `"tiff"`.
    fn name(&self) -> (n: &'static str)
        ensures
            n@ == "tiff"@,
    {
        "tiff"
    }

    /// Tiling, random access and cloud streaming; no small-stream support.
    fn capabilities(&self) -> (c: BackendCapabilities)
        ensures
            c == (BackendCapabilities {
                supports_tiling: true,
                supports_streaming: false,
                supports_random_access: true,
                supports_cloud_streaming: true,
            }),
    {
        BackendCapabilities {
            supports_tiling: true,
            supports_streaming: false,
            supports_random_access: true,
            supports_cloud_streaming: true,
        }
    }

    /// Reads the file at `reader`'s cursor into a model with one child per
    /// image ([`file_model`]); a broken file fails as [`file_chain`]
    /// describes.
    fn deserialize_model<R: BinaryReader>(&self, reader: &mut R) -> (r: Result<StorageModel>)
        ensures
            final(reader).bytes() == old(reader).bytes(),
            final(reader).reliable() == old(reader).reliable(),
            old(reader).reliable() ==> (r is Ok <==> file_chain(old(reader).bytes(), old(reader).pos()) is Some),
            r matches Ok(root) ==> file_model(old(reader).bytes(), old(reader).pos(), root),
    {
        let chain = read_directory_chain(reader)?;
        let ghost fc = file_chain(old(reader).bytes(), old(reader).pos()).unwrap();
        let mut root = StorageModel::new();
        let mut i: usize = 0;
        while i < chain.directories.len()
            invariant
                i <= chain.directories@.len(),
                chain.directories@.len() == fc.1.len(),
                forall|j: int| 0 <= j < fc.1.len() ==> read_as(fc.1[j], fc.0.endian, #[trigger] chain.directories@[j]),
                root.field_map() == Map::<Seq<char>, Seq<char>>::empty(),
                root.child_nodes().len() == i,
                forall|j: int| 0 <= j < i ==> (#[trigger] root.child_nodes()[j]).field_map() == directory_fields(chain.directories@[j]),
            decreases chain.directories@.len() - i,
        {
            let child = to_storage_model(&chain.directories[i]);
            root.add_child(child);
            i = i + 1;
        }
        proof {
            assert(file_chain(old(reader).bytes(), old(reader).pos()) == Some(fc));
            assert(models_directories(root, chain.directories@));
        }
        Ok(root)
    }

    /// Writes the header and the IFD of the single image `model` describes
    /// at `writer`'s cursor; pixel data is written later through a sink. A
    /// model that cannot be planned fails with
    /// [`ErrorCode::InvalidArgument`] and writes nothing; on a reliable
    /// writer with room for both, the bytes written are exactly
    /// [`single_file_bytes`] of the model's plan.
    fn serialize_model<W: BinaryWriter>(&self, model: &StorageModel, writer: &mut W) -> (r: Result<()>)
        ensures
            final(writer).reliable() == old(writer).reliable(),
            !plan_ok(model.field_map(), model.entries()) ==> (r matches Err(e) && e.kind() == ErrorCode::InvalidArgument && *final(writer) == *old(writer)),
            old(writer).reliable() && plan_ok(model.field_map(), model.entries()) && old(writer).pos() + planned_data_offset(image_inputs(*model), model.entries()) <= usize::MAX ==> {
                &&& r is Ok
                &&& exists|plan: TiffWritePlan|
                    #![trigger plan_matches(model.field_map(), model.entries(), plan)]
                    plan_matches(model.field_map(), model.entries(), plan) && final(writer).bytes() == overwrite_at(
                        old(writer).bytes(),
                        old(writer).pos(),
                        single_file_bytes(plan, old(writer).pos()),
                    )
            },
    {
        let plan = plan_tiff_write(model)?;
        let ghost q = plan;
        proof {
            lemma_plan_ifd_size(*model, plan);
        }
        let r = serialize_single_plan(plan, writer);
        proof {
            if old(writer).reliable() && plan_ok(model.field_map(), model.entries()) && old(writer).pos() + planned_data_offset(image_inputs(*model), model.entries()) <= usize::MAX {
                assert(plan_matches(model.field_map(), model.entries(), q));
            }
        }
        r
    }

    /// Writes the header and the IFD chain of the images `models`
    /// describe at `writer`'s cursor, each IFD linked to the next and the
    /// last to 0; pixel data is written later through per-image sinks.
    /// Models that cannot be written together fail with
    /// [`ErrorCode::InvalidArgument`] and write nothing; on a reliable
    /// writer with room for the header and every IFD, the bytes written
    /// are exactly [`multi_file_bytes`] of the file plan.
    #[verifier::rlimit(40)]
    #[verifier::spinoff_prover]
    fn serialize_model_list<W: BinaryWriter>(&self, models: &[StorageModel], writer: &mut W) -> (r: Result<()>)
        ensures
            final(writer).reliable() == old(writer).reliable(),
            !multi_ok(models@) ==> (r matches Err(e) && e.kind() == ErrorCode::InvalidArgument && *final(writer) == *old(writer)),
            old(writer).reliable() && multi_ok(models@) && old(writer).pos() + first_data_byte(models@) <= usize::MAX ==> {
                &&& r is Ok
                &&& exists|fp: TiffFileWritePlan|
                    #![trigger multi_matches(models@, fp)]
                    multi_matches(models@, fp) && final(writer).bytes() == overwrite_at(
                        old(writer).bytes(),
                        old(writer).pos(),
                        multi_file_bytes(fp, old(writer).pos()),
                    )
            },
    {
        let fp = plan_tiff_write_multi(models)?;
        let ghost q = fp;
        let ghost es = plan_entries(fp);
        let ghost b0 = writer.bytes();
        let ghost p0 = writer.pos();
        let big = fp.is_big_tiff;
        let header_len: u64 = if big { K_BIG_TIFF_HEADER_SIZE } else { K_CLASSIC_TIFF_HEADER_SIZE };
        proof {
            lemma_chain_end(models@, fp);
            super::header::lemma_header_bytes_len(header_len, big);
        }
        write_tiff_header(writer, header_len, big)?;
        let ghost b1 = writer.bytes();
        write_ifd_chain(fp.images, big, header_len, writer)?;
        proof {
            if old(writer).reliable() && p0 + first_data_byte(models@) <= usize::MAX {
                crate::io::binary_writer::lemma_overwrite_at_concat(
                    b0,
                    p0,
                    header_bytes(header_len, big),
                    chain_bytes(es, big, es.len(), (p0 + header_len) as nat, header_len as nat),
                );
            }
            assert(multi_matches(models@, q));
        }
        Ok(())
    }
}

} // verus!
